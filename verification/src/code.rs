//! A number for each state, one to one, by which states are told apart and
//! counted.

use vstd::prelude::*;
use crate::geometry::NUM_BOTTLES;
use crate::state::{BottleState, MarbleState, State};

verus! {

/// Number of ways one bottle and the marble of its groove can stand.
pub const GROOVE_STATES: u128 = 9;

/// Number of ways the bottles and marbles can stand together:
/// `GROOVE_STATES` to the power `NUM_BOTTLES`.
pub const ROW_STATES: u128 = 531441;

/// The digit, below 3, that stands for a bottle position.
pub open spec fn bottle_digit(b: BottleState) -> int {
    match b {
        BottleState::Top => 0,
        BottleState::Middle => 1,
        BottleState::Bottom => 2,
    }
}

/// The digit, below 3, that stands for a marble position.
pub open spec fn marble_digit(m: MarbleState) -> int {
    match m {
        MarbleState::TopLeft => 0,
        MarbleState::BottomLeft => 1,
        MarbleState::BottomRight => 2,
    }
}

/// The digit, below `GROOVE_STATES`, that stands for groove `i` of `s`.
pub open spec fn groove_digit(s: State, i: int) -> int {
    3 * bottle_digit(s.bottles[i]) + marble_digit(s.marbles[i])
}

/// The number made of the tray offset followed by the digits of the first
/// `n` grooves, in base `GROOVE_STATES`.
pub open spec fn pack(s: State, n: int) -> int
    decreases n,
{
    if n <= 0 {
        s.tray_offset as int
    } else {
        pack(s, n - 1) * 9 + groove_digit(s, n - 1)
    }
}

/// The number that stands for `s`.
pub open spec fn spec_code(s: State) -> int {
    pack(s, NUM_BOTTLES as int)
}

/// States that agree on the packing of their first `n` grooves agree on the
/// tray offset and on those grooves.
pub proof fn lemma_pack_one_to_one(a: State, b: State, n: int)
    requires
        0 <= n <= NUM_BOTTLES,
        pack(a, n) == pack(b, n),
    ensures
        a.tray_offset == b.tray_offset,
        forall|i: int| 0 <= i < n ==> a.bottles[i] == b.bottles[i] && a.marbles[i] == b.marbles[i],
    decreases n,
{
    if n > 0 {
        lemma_pack_one_to_one(a, b, n - 1);
    }
}

/// Two states with the same code are the same state.
pub proof fn lemma_code_one_to_one(a: State, b: State)
    requires
        spec_code(a) == spec_code(b),
    ensures
        a == b,
{
    lemma_pack_one_to_one(a, b, NUM_BOTTLES as int);
    assert(a.bottles =~= b.bottles);
    assert(a.marbles =~= b.marbles);
}

/// The code of a state lies below `ROW_STATES` times the tray offset plus
/// one.
pub proof fn lemma_code_bounds(s: State)
    ensures
        0 <= spec_code(s) < (s.tray_offset + 1) * ROW_STATES,
{
    reveal_with_fuel(pack, 7);
}

impl State {
    /// Computes the digit of groove `i`.
    fn digit(&self, i: usize) -> (d: u128)
        requires
            i < NUM_BOTTLES,
        ensures
            d == groove_digit(*self, i as int),
            d < GROOVE_STATES,
    {
        let b: u128 = match self.bottles[i] {
            BottleState::Top => 0,
            BottleState::Middle => 1,
            BottleState::Bottom => 2,
        };
        let m: u128 = match self.marbles[i] {
            MarbleState::TopLeft => 0,
            MarbleState::BottomLeft => 1,
            MarbleState::BottomRight => 2,
        };
        3 * b + m
    }

    /// Computes the code of the state.
    pub fn code(&self) -> (c: u128)
        ensures
            c == spec_code(*self),
    {
        proof {
            reveal_with_fuel(pack, 7);
        }
        let c0: u128 = self.tray_offset as u128;
        let c1: u128 = c0 * GROOVE_STATES + self.digit(0);
        let c2: u128 = c1 * GROOVE_STATES + self.digit(1);
        let c3: u128 = c2 * GROOVE_STATES + self.digit(2);
        let c4: u128 = c3 * GROOVE_STATES + self.digit(3);
        let c5: u128 = c4 * GROOVE_STATES + self.digit(4);
        c5 * GROOVE_STATES + self.digit(5)
    }
}

} // verus!
