//! Puzzle states, moves, and the rules that say which moves a state allows.

use vstd::prelude::*;
use vstd::array::spec_array_update;
use crate::geometry::{clearance, over_profile, spec_clearance, MAX_TRAY_OFFSET, NUM_BOTTLES};

verus! {

/// Bottles have three positions.
#[derive(Clone, Copy, Debug, PartialEq, Eq, Hash, Structural)]
pub enum BottleState {
    Top,
    Middle,
    Bottom,
}

/// Marbles are in L-shaped grooves, and have three positions.
#[derive(Clone, Copy, Debug, PartialEq, Eq, Hash, Structural)]
pub enum MarbleState {
    TopLeft,
    BottomLeft,
    BottomRight,
}

/// Possible moves. The index of a marble or bottle move is below
/// `NUM_BOTTLES`.
#[derive(Clone, Copy, Debug, PartialEq, Eq, Hash, Structural)]
pub enum Move {
    /// Move the tray one position left.
    TrayLeft,
    /// Move the tray one position right.
    TrayRight,
    /// Move marble left.
    MarbleLeft(usize),
    /// Move marble right.
    MarbleRight(usize),
    /// Move bottle up.
    BottleUp(usize),
    /// Move bottle down.
    BottleDown(usize),
    /// No move: marks the end of an enumeration and the root of a path.
    Invalid,
}

/// The puzzle state.
#[derive(Clone, Copy, Debug, Eq, Hash)]
pub struct State {
    /// There are `NUM_BOTTLES` bottles.
    pub bottles: [BottleState; NUM_BOTTLES],
    /// Each bottle has a groove that overlaps with the next one.
    /// The rightmost groove sticks out of the rightmost bottle.
    pub marbles: [MarbleState; NUM_BOTTLES],
    pub tray_offset: usize,
}

impl PartialEq for State {
    fn eq(&self, other: &State) -> (r: bool) {
        if self.tray_offset != other.tray_offset {
            return false;
        }
        let mut i: usize = 0;
        while i < NUM_BOTTLES
            invariant
                i <= NUM_BOTTLES,
                forall|j: int| 0 <= j < i ==> self.bottles[j] == other.bottles[j],
                forall|j: int| 0 <= j < i ==> self.marbles[j] == other.marbles[j],
            decreases NUM_BOTTLES - i,
        {
            if self.bottles[i] != other.bottles[i] || self.marbles[i] != other.marbles[i] {
                return false;
            }
            i += 1;
        }
        assert(self.bottles =~= other.bottles);
        assert(self.marbles =~= other.marbles);
        true
    }
}

impl vstd::std_specs::cmp::PartialEqSpecImpl for State {
    open spec fn obeys_eq_spec() -> bool {
        true
    }

    open spec fn eq_spec(&self, other: &State) -> bool {
        *self == *other
    }
}

/// The position one step above `b`; `Top` stays.
pub open spec fn raised(b: BottleState) -> BottleState {
    match b {
        BottleState::Bottom => BottleState::Middle,
        _ => BottleState::Top,
    }
}

/// The position one step below `b`; `Bottom` stays.
pub open spec fn lowered(b: BottleState) -> BottleState {
    match b {
        BottleState::Top => BottleState::Middle,
        _ => BottleState::Bottom,
    }
}

/// Moves bottle up.
pub fn bottle_up(s: BottleState) -> (r: BottleState)
    requires
        s != BottleState::Top,
    ensures
        r == raised(s),
        lowered(r) == s,
{
    match s {
        BottleState::Bottom => BottleState::Middle,
        _ => BottleState::Top,
    }
}

/// Moves bottle down.
pub fn bottle_down(s: BottleState) -> (r: BottleState)
    requires
        s != BottleState::Bottom,
    ensures
        r == lowered(s),
        raised(r) == s,
{
    match s {
        BottleState::Top => BottleState::Middle,
        _ => BottleState::Bottom,
    }
}

/// The move that undoes `mv`.
pub open spec fn inverse(mv: Move) -> Move {
    match mv {
        Move::TrayLeft => Move::TrayRight,
        Move::TrayRight => Move::TrayLeft,
        Move::MarbleLeft(i) => Move::MarbleRight(i),
        Move::MarbleRight(i) => Move::MarbleLeft(i),
        Move::BottleUp(i) => Move::BottleDown(i),
        Move::BottleDown(i) => Move::BottleUp(i),
        Move::Invalid => Move::Invalid,
    }
}

/// Returns the inverse move.
pub fn reverse(mv: Move) -> (r: Move)
    ensures
        r == inverse(mv),
        inverse(r) == mv,
        r.indexed() == mv.indexed(),
{
    match mv {
        Move::TrayLeft => Move::TrayRight,
        Move::TrayRight => Move::TrayLeft,
        Move::MarbleLeft(i) => Move::MarbleRight(i),
        Move::MarbleRight(i) => Move::MarbleLeft(i),
        Move::BottleUp(i) => Move::BottleDown(i),
        Move::BottleDown(i) => Move::BottleUp(i),
        Move::Invalid => Move::Invalid,
    }
}

/// Number of moves that the enumeration runs through; also the rank of
/// `Move::Invalid`, which ends it.
pub open spec fn move_count() -> int {
    2 + 4 * NUM_BOTTLES
}

impl Move {
    /// Whether the index that the move carries, if any, names a bottle.
    pub open spec fn indexed(self) -> bool {
        match self {
            Move::MarbleLeft(i) | Move::MarbleRight(i) | Move::BottleUp(i) | Move::BottleDown(i) => i
                < NUM_BOTTLES,
            _ => true,
        }
    }

    /// Place of the move in the order of enumeration: the tray moves, then
    /// for each kind in turn the moves of that kind by index.
    pub open spec fn rank(self) -> int {
        match self {
            Move::TrayLeft => 0,
            Move::TrayRight => 1,
            Move::MarbleLeft(i) => 2 + i,
            Move::MarbleRight(i) => 2 + NUM_BOTTLES + i,
            Move::BottleUp(i) => 2 + 2 * NUM_BOTTLES + i,
            Move::BottleDown(i) => 2 + 3 * NUM_BOTTLES + i,
            Move::Invalid => move_count(),
        }
    }

    /// The move that follows in the order of enumeration, `Invalid` after
    /// the last one.
    fn following(self) -> (r: Move)
        requires
            self.indexed(),
            self != Move::Invalid,
        ensures
            r.indexed(),
            r.rank() == self.rank() + 1,
    {
        match self {
            Move::TrayLeft => Move::TrayRight,
            Move::TrayRight => Move::MarbleLeft(0),
            Move::MarbleLeft(i) => if i + 1 == NUM_BOTTLES {
                Move::MarbleRight(0)
            } else {
                Move::MarbleLeft(i + 1)
            },
            Move::MarbleRight(i) => if i + 1 == NUM_BOTTLES {
                Move::BottleUp(0)
            } else {
                Move::MarbleRight(i + 1)
            },
            Move::BottleUp(i) => if i + 1 == NUM_BOTTLES {
                Move::BottleDown(0)
            } else {
                Move::BottleUp(i + 1)
            },
            Move::BottleDown(i) => if i + 1 == NUM_BOTTLES {
                Move::Invalid
            } else {
                Move::BottleDown(i + 1)
            },
            Move::Invalid => Move::Invalid,
        }
    }
}

/// Whether a bottle in position `b` at slot `i` clears the tray at
/// `tray_offset`. `Top` clears any cell of the profile, `Middle` a cell of
/// height at most 1, `Bottom` a cell of height 0. Off the profile nothing
/// is valid.
pub open spec fn bottle_position_valid(tray_offset: int, i: int, b: BottleState) -> bool {
    over_profile(tray_offset, i) && match b {
        BottleState::Top => true,
        BottleState::Middle => spec_clearance(tray_offset, i) <= 1,
        BottleState::Bottom => spec_clearance(tray_offset, i) == 0,
    }
}

/// Whether every bottle clears the tray at `tray_offset`.
pub open spec fn tray_position_valid(tray_offset: int, bottles: Seq<BottleState>) -> bool {
    forall|i: int|
        0 <= i < NUM_BOTTLES ==> #[trigger] bottle_position_valid(tray_offset, i, bottles[i])
}

/// A tray position that is valid for any bottles lies in `0..=MAX_TRAY_OFFSET`.
pub proof fn lemma_valid_offset_in_range(tray_offset: int, bottles: Seq<BottleState>)
    requires
        tray_position_valid(tray_offset, bottles),
    ensures
        0 <= tray_offset <= MAX_TRAY_OFFSET,
{
    assert(bottle_position_valid(tray_offset, 0, bottles[0]));
    assert(bottle_position_valid(tray_offset, NUM_BOTTLES - 1, bottles[NUM_BOTTLES - 1]));
}

/// Tests whether a bottle in position `b` at slot `i` clears the tray at
/// `tray_offset`.
pub fn is_valid_tray_bottle_position(tray_offset: usize, i: usize, b: BottleState) -> (r: bool)
    ensures
        r == bottle_position_valid(tray_offset as int, i as int, b),
{
    match clearance(tray_offset, i) {
        None => false,
        Some(tray_height) => match b {
            BottleState::Top => true,
            BottleState::Middle => tray_height <= 1,
            // A bottle can only be in the bottom state if on the notch,
            // fully before, or fully past the tray.
            BottleState::Bottom => tray_height == 0,
        },
    }
}

/// Tests whether every bottle clears the tray at `tray_offset`.
pub fn is_valid_tray_position(tray_offset: usize, bottles: &[BottleState; NUM_BOTTLES]) -> (r:
    bool)
    ensures
        r == tray_position_valid(tray_offset as int, bottles@),
{
    let mut i: usize = 0;
    while i < NUM_BOTTLES
        invariant
            i <= NUM_BOTTLES,
            forall|j: int|
                0 <= j < i ==> #[trigger] bottle_position_valid(tray_offset as int, j, bottles@[j]),
        decreases NUM_BOTTLES - i,
    {
        if !is_valid_tray_bottle_position(tray_offset, i, bottles[i]) {
            return false;
        }
        i += 1;
    }
    true
}

impl State {
    /// The puzzle is solved when the tray can be extracted at either end.
    pub open spec fn solved(&self) -> bool {
        self.tray_offset == 0 || self.tray_offset == MAX_TRAY_OFFSET
    }

    /// Every bottle clears the tray where it stands.
    pub open spec fn valid(&self) -> bool {
        tray_position_valid(self.tray_offset as int, self.bottles@)
    }

    /// The marble in the groove to the left of bottle `i` rests on the
    /// right, under the bottle, and keeps it from moving.
    pub open spec fn wedged(&self, i: int) -> bool {
        i > 0 && self.marbles[i - 1] == MarbleState::BottomRight
    }

    /// Bottle `i` is free to move, and stands with the marble of its groove
    /// in a way that no sequence of moves brings about: raising it has no
    /// meaning.
    pub open spec fn fault_at(&self, i: int) -> bool {
        !self.wedged(i) && ((self.bottles[i] == BottleState::Middle && self.marbles[i]
            == MarbleState::BottomLeft) || (self.bottles[i] == BottleState::Bottom
            && self.marbles[i] == MarbleState::TopLeft))
    }

    /// No bottle is at fault: every move can be tried.
    pub open spec fn sound(&self) -> bool {
        forall|i: int| 0 <= i < NUM_BOTTLES ==> !#[trigger] self.fault_at(i)
    }

    /// Each marble that is not at the bottom right is where its own bottle
    /// holds it: at the top left beside a bottle in the middle, at the
    /// bottom left beside a bottle at the bottom.
    pub open spec fn coherent(&self) -> bool {
        forall|i: int|
            0 <= i < NUM_BOTTLES ==> #[trigger] groove_coherent(self.bottles[i], self.marbles[i])
    }

    /// A marble at the bottom right fills the place under the bottle to its
    /// right, which is therefore not at the bottom.
    pub open spec fn settled(&self) -> bool {
        forall|i: int|
            0 <= i < NUM_BOTTLES - 1 && #[trigger] self.marbles[i] == MarbleState::BottomRight
                ==> self.bottles[i + 1] != BottleState::Bottom
    }

    #[verifier::when_used_as_spec(solved)]
    pub fn is_solved(&self) -> (r: bool)
        ensures
            r == self.solved(),
    {
        self.tray_offset == 0 || self.tray_offset == MAX_TRAY_OFFSET
    }

    /// Tests whether bottle `i` is at fault.
    pub fn is_fault_at(&self, i: usize) -> (r: bool)
        requires
            i < NUM_BOTTLES,
        ensures
            r == self.fault_at(i as int),
    {
        if i > 0 && self.marbles[i - 1] == MarbleState::BottomRight {
            return false;
        }
        (self.bottles[i] == BottleState::Middle && self.marbles[i] == MarbleState::BottomLeft) || (
        self.bottles[i] == BottleState::Bottom && self.marbles[i] == MarbleState::TopLeft)
    }

    /// Tests `coherent`.
    #[verifier::when_used_as_spec(coherent)]
    pub fn is_coherent(&self) -> (r: bool)
        ensures
            r == self.coherent(),
    {
        let mut i: usize = 0;
        while i < NUM_BOTTLES
            invariant
                i <= NUM_BOTTLES,
                forall|j: int|
                    0 <= j < i ==> #[trigger] groove_coherent(self.bottles[j], self.marbles[j]),
            decreases NUM_BOTTLES - i,
        {
            let fits = match self.marbles[i] {
                MarbleState::TopLeft => self.bottles[i] == BottleState::Middle,
                MarbleState::BottomLeft => self.bottles[i] == BottleState::Bottom,
                MarbleState::BottomRight => true,
            };
            if !fits {
                assert(!groove_coherent(self.bottles[i as int], self.marbles[i as int]));
                return false;
            }
            i += 1;
        }
        true
    }
}

/// Whether a bottle at `b` and the marble of its groove at `m` go together.
pub open spec fn groove_coherent(b: BottleState, m: MarbleState) -> bool {
    match m {
        MarbleState::TopLeft => b == BottleState::Middle,
        MarbleState::BottomLeft => b == BottleState::Bottom,
        MarbleState::BottomRight => true,
    }
}

/// A coherent state is sound.
pub proof fn lemma_coherent_sound(s: State)
    requires
        s.coherent(),
    ensures
        s.sound(),
{
    assert forall|i: int| 0 <= i < NUM_BOTTLES implies !#[trigger] s.fault_at(i) by {
        assert(groove_coherent(s.bottles[i], s.marbles[i]));
    }
}

/// Whether `m` tries, for going up, a bottle of `s` that is at fault.
pub open spec fn faulty(s: State, m: Move) -> bool {
    match m {
        Move::BottleUp(i) => i < NUM_BOTTLES && s.fault_at(i as int),
        _ => false,
    }
}

/// Whether `s` allows the move `m`.
pub open spec fn legal(s: State, m: Move) -> bool {
    match m {
        Move::TrayLeft => tray_position_valid(s.tray_offset - 1, s.bottles@),
        Move::TrayRight => tray_position_valid(s.tray_offset + 1, s.bottles@),
        Move::MarbleLeft(i) => {
            &&& i < NUM_BOTTLES
            &&& s.marbles[i as int] == MarbleState::BottomRight
            &&& s.bottles[i as int] == BottleState::Bottom
        },
        Move::MarbleRight(i) => {
            &&& i < NUM_BOTTLES
            &&& s.marbles[i as int] == MarbleState::BottomLeft
            &&& (i + 1 == NUM_BOTTLES || s.bottles[i + 1] != BottleState::Bottom)
        },
        Move::BottleUp(i) => {
            &&& i < NUM_BOTTLES
            &&& !s.wedged(i as int)
            &&& match (s.bottles[i as int], s.marbles[i as int]) {
                (BottleState::Top, _) => false,
                (BottleState::Bottom, MarbleState::BottomLeft) => true,
                (_, MarbleState::BottomRight) => true,
                _ => false,
            }
        },
        Move::BottleDown(i) => {
            &&& i < NUM_BOTTLES
            &&& !s.wedged(i as int)
            &&& s.bottles[i as int] != BottleState::Bottom
            &&& bottle_position_valid(s.tray_offset as int, i as int, lowered(s.bottles[i as int]))
        },
        Move::Invalid => false,
    }
}

/// The state that the move `m` leaves, where `s` allows it.
pub open spec fn apply(s: State, m: Move) -> State
    recommends
        legal(s, m),
{
    match m {
        Move::TrayLeft => State { tray_offset: (s.tray_offset - 1) as usize, ..s },
        Move::TrayRight => State { tray_offset: (s.tray_offset + 1) as usize, ..s },
        Move::MarbleLeft(i) => State {
            marbles: spec_array_update(s.marbles, i as int, MarbleState::BottomLeft),
            ..s
        },
        Move::MarbleRight(i) => State {
            marbles: spec_array_update(s.marbles, i as int, MarbleState::BottomRight),
            ..s
        },
        Move::BottleUp(i) => State {
            bottles: spec_array_update(s.bottles, i as int, raised(s.bottles[i as int])),
            marbles: if s.marbles[i as int] == MarbleState::BottomLeft {
                spec_array_update(s.marbles, i as int, MarbleState::TopLeft)
            } else {
                s.marbles
            },
            ..s
        },
        Move::BottleDown(i) => State {
            bottles: spec_array_update(s.bottles, i as int, lowered(s.bottles[i as int])),
            marbles: if s.marbles[i as int] == MarbleState::TopLeft {
                spec_array_update(s.marbles, i as int, MarbleState::BottomLeft)
            } else {
                s.marbles
            },
            ..s
        },
        Move::Invalid => s,
    }
}

/// The outcome of trying `m` on `s`: the next state, or nothing where the
/// move is not allowed.
pub open spec fn step(s: State, m: Move) -> Option<State> {
    if legal(s, m) {
        Some(apply(s, m))
    } else {
        None
    }
}

/// Tries one move on a state: gives the state that the move leads to, or
/// `None` where the state does not allow the move. A bottle at fault cannot
/// be tried for going up.
pub fn attempt(s: &State, m: Move) -> (r: Option<State>)
    requires
        !faulty(*s, m),
    ensures
        r == step(*s, m),
{
    match m {
        Move::TrayLeft => {
            if s.tray_offset > 0 && is_valid_tray_position(s.tray_offset - 1, &s.bottles) {
                let mut next_state = s.clone();
                next_state.tray_offset -= 1;
                return Some(next_state);
            }
            proof {
                if s.tray_offset == 0 {
                    if tray_position_valid(s.tray_offset - 1, s.bottles@) {
                        lemma_valid_offset_in_range(s.tray_offset - 1, s.bottles@);
                    }
                }
            }
            None
        },
        Move::TrayRight => {
            if s.tray_offset < MAX_TRAY_OFFSET && is_valid_tray_position(
                s.tray_offset + 1,
                &s.bottles,
            ) {
                let mut next_state = s.clone();
                next_state.tray_offset += 1;
                return Some(next_state);
            }
            proof {
                if s.tray_offset >= MAX_TRAY_OFFSET {
                    if tray_position_valid(s.tray_offset + 1, s.bottles@) {
                        lemma_valid_offset_in_range(s.tray_offset + 1, s.bottles@);
                    }
                }
            }
            None
        },
        Move::MarbleLeft(i) => {
            if i < NUM_BOTTLES && s.marbles[i] == MarbleState::BottomRight && s.bottles[i]
                == BottleState::Bottom {
                let mut next_state = s.clone();
                next_state.marbles[i] = MarbleState::BottomLeft;
                assert(next_state.marbles =~= apply(*s, m).marbles);
                return Some(next_state);
            }
            None
        },
        Move::MarbleRight(i) => {
            if i < NUM_BOTTLES && s.marbles[i] == MarbleState::BottomLeft && (i + 1 == NUM_BOTTLES
                || s.bottles[i + 1] != BottleState::Bottom) {
                let mut next_state = s.clone();
                next_state.marbles[i] = MarbleState::BottomRight;
                assert(next_state.marbles =~= apply(*s, m).marbles);
                return Some(next_state);
            }
            None
        },
        Move::BottleUp(i) => {
            if i >= NUM_BOTTLES {
                return None;
            }
            if i > 0 && s.marbles[i - 1] == MarbleState::BottomRight {
                // The bottle is stuck because of left marble.
                return None;
            }
            let right_marble = s.marbles[i];
            match (s.bottles[i], right_marble) {
                // Already at the top.
                (BottleState::Top, _) => None,
                // Marble prevents moving up.
                (BottleState::Middle, MarbleState::TopLeft) => None,
                (BottleState::Bottom, MarbleState::BottomLeft) => {
                    // Move both bottle and right marble one step up.
                    let mut next_state = s.clone();
                    next_state.bottles[i] = BottleState::Middle;
                    next_state.marbles[i] = MarbleState::TopLeft;
                    assert(next_state.bottles =~= apply(*s, m).bottles);
                    assert(next_state.marbles =~= apply(*s, m).marbles);
                    Some(next_state)
                },
                (bottle, _) => {
                    // Move bottle one step up.
                    let mut next_state = s.clone();
                    next_state.bottles[i] = bottle_up(bottle);
                    assert(next_state.bottles =~= apply(*s, m).bottles);
                    Some(next_state)
                },
            }
        },
        Move::BottleDown(i) => {
            if i >= NUM_BOTTLES {
                return None;
            }
            if i > 0 && s.marbles[i - 1] == MarbleState::BottomRight {
                // The bottle is stuck because of left marble.
                return None;
            }
            let bottle = s.bottles[i];
            if bottle != BottleState::Bottom && is_valid_tray_bottle_position(
                s.tray_offset,
                i,
                bottle_down(bottle),
            ) {
                // Move bottle one step down.
                let mut next_state = s.clone();
                next_state.bottles[i] = bottle_down(bottle);
                if next_state.marbles[i] == MarbleState::TopLeft {
                    next_state.marbles[i] = MarbleState::BottomLeft;
                }
                assert(next_state.bottles =~= apply(*s, m).bottles);
                assert(next_state.marbles =~= apply(*s, m).marbles);
                return Some(next_state);
            }
            None
        },
        Move::Invalid => None,
    }
}

/// An enumeration of the states that one move away from a given state,
/// What the enumeration reports when it comes to try a bottle for going up
/// that is at fault: the state is none that moves bring about.
#[derive(Clone, Copy, Debug, PartialEq, Eq, Structural)]
pub struct InvariantViolation {
    /// The bottle at fault.
    pub bottle: usize,
}

/// No move of the enumeration with a rank from `from` up to, and not
/// including, `to` is allowed in `s`, and none of them is at fault.
pub open spec fn passed_over(s: State, from: int, to: int) -> bool {
    forall|m: Move|
        #![trigger legal(s, m)]
        #![trigger faulty(s, m)]
        m.indexed() && from <= m.rank() < to ==> !legal(s, m) && !faulty(s, m)
}

/// An enumeration of the states that are one move away from a given state,
/// each with its move, in the order of `Move::rank`.
pub struct NextStatesIter<'a> {
    state: &'a State,
    next_move: Move,
}

impl<'a> NextStatesIter<'a> {
    /// The state whose moves are enumerated.
    pub closed spec fn origin(&self) -> State {
        *self.state
    }

    /// The move that is tried next; `Invalid` once the enumeration is over.
    pub closed spec fn cursor(&self) -> Move {
        self.next_move
    }

    /// The cursor is a move of the enumeration.
    pub closed spec fn wf(&self) -> bool {
        self.next_move.indexed()
    }

    /// Starts the enumeration of the moves of `state`.
    pub fn new(state: &'a State) -> (it: Self)
        ensures
            it.wf(),
            it.origin() == *state,
            it.cursor() == Move::TrayLeft,
    {
        Self { state, next_move: Move::TrayLeft }
    }

    /// Goes on from the cursor to the first move that is allowed or at
    /// fault, and sets the cursor behind it. An allowed move is handed out
    /// with the state it leads to, a move at fault is reported as a
    /// violation; `None` when neither is left.
    pub fn next(&mut self) -> (r: Result<Option<(Move, State)>, InvariantViolation>)
        requires
            old(self).wf(),
        ensures
            final(self).wf(),
            final(self).origin() == old(self).origin(),
            final(self).cursor().indexed(),
            match r {
                Ok(Some((m, t))) => {
                    &&& m.indexed()
                    &&& old(self).cursor().rank() <= m.rank()
                    &&& step(old(self).origin(), m) == Some(t)
                    &&& final(self).cursor().rank() == m.rank() + 1
                    &&& passed_over(old(self).origin(), old(self).cursor().rank(), m.rank())
                    &&& old(self).origin().valid() ==> t.valid()
                },
                Ok(None) => {
                    &&& final(self).cursor() == Move::Invalid
                    &&& passed_over(old(self).origin(), old(self).cursor().rank(), move_count())
                },
                Err(v) => {
                    &&& faulty(old(self).origin(), Move::BottleUp(v.bottle))
                    &&& old(self).cursor().rank() <= Move::BottleUp(v.bottle).rank()
                    &&& final(self).cursor().rank() == Move::BottleUp(v.bottle).rank() + 1
                    &&& passed_over(
                        old(self).origin(),
                        old(self).cursor().rank(),
                        Move::BottleUp(v.bottle).rank(),
                    )
                },
            },
    {
        loop
            invariant
                self.wf(),
                self.state == old(self).state,
                old(self).next_move.rank() <= self.next_move.rank(),
                passed_over(*self.state, old(self).next_move.rank(), self.next_move.rank()),
            decreases move_count() - self.next_move.rank(),
        {
            let cur_move = self.next_move;
            if let Move::Invalid = cur_move {
                return Ok(None);
            }
            self.next_move = cur_move.following();
            if let Move::BottleUp(i) = cur_move {
                if self.state.is_fault_at(i) {
                    return Err(InvariantViolation { bottle: i });
                }
            }
            if let Some(next_state) = attempt(self.state, cur_move) {
                proof {
                    if self.state.valid() {
                        crate::invariants::lemma_step_keeps_valid(*self.state, cur_move);
                    }
                }
                return Ok(Some((cur_move, next_state)));
            }
            proof {
                let ghost before = cur_move.rank();
                assert forall|m: Move|
                    #![trigger legal(*self.state, m)]
                    #![trigger faulty(*self.state, m)]
                    m.indexed() && old(self).next_move.rank() <= m.rank()
                        < self.next_move.rank() implies !legal(*self.state, m) && !faulty(
                    *self.state,
                    m,
                ) by {
                    if m.rank() == before {
                        assert(m == cur_move);
                    }
                }
            }
        }
    }
}

} // verus!
