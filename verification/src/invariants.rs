//! What the moves keep: properties of a state that hold again after any
//! move that the state allows.

use vstd::prelude::*;
use crate::geometry::{MAX_TRAY_OFFSET, NUM_BOTTLES};
use crate::run::is_run;
use crate::state::{
    apply, bottle_position_valid, groove_coherent, legal, lemma_valid_offset_in_range, step,
    BottleState, MarbleState, Move, State,
};

verus! {

/// A move allowed in a valid state leaves a valid state, with the tray
/// offset in `0..=MAX_TRAY_OFFSET`.
pub proof fn lemma_step_keeps_valid(s: State, m: Move)
    requires
        legal(s, m),
        s.valid(),
    ensures
        apply(s, m).valid(),
        apply(s, m).tray_offset <= MAX_TRAY_OFFSET,
{
    let t = apply(s, m);
    lemma_valid_offset_in_range(s.tray_offset as int, s.bottles@);
    match m {
        Move::TrayLeft => {
            lemma_valid_offset_in_range(s.tray_offset - 1, s.bottles@);
        },
        Move::TrayRight => {
            lemma_valid_offset_in_range(s.tray_offset + 1, s.bottles@);
        },
        Move::BottleUp(i) => {
            assert forall|j: int| 0 <= j < NUM_BOTTLES implies #[trigger] bottle_position_valid(
                t.tray_offset as int,
                j,
                t.bottles@[j],
            ) by {
                assert(bottle_position_valid(s.tray_offset as int, j, s.bottles@[j]));
            }
        },
        Move::BottleDown(i) => {
            assert forall|j: int| 0 <= j < NUM_BOTTLES implies #[trigger] bottle_position_valid(
                t.tray_offset as int,
                j,
                t.bottles@[j],
            ) by {
                assert(bottle_position_valid(s.tray_offset as int, j, s.bottles@[j]));
            }
        },
        _ => {},
    }
}

/// A move allowed in a coherent state leaves a coherent state.
pub proof fn lemma_step_keeps_coherent(s: State, m: Move)
    requires
        legal(s, m),
        s.coherent(),
    ensures
        apply(s, m).coherent(),
{
    let t = apply(s, m);
    assert forall|j: int| 0 <= j < NUM_BOTTLES implies #[trigger] groove_coherent(
        t.bottles[j],
        t.marbles[j],
    ) by {
        assert(groove_coherent(s.bottles[j], s.marbles[j]));
    }
}

/// A move allowed in a settled state leaves a settled state.
pub proof fn lemma_step_keeps_settled(s: State, m: Move)
    requires
        legal(s, m),
        s.settled(),
    ensures
        apply(s, m).settled(),
{
    let t = apply(s, m);
    assert forall|j: int|
        0 <= j < NUM_BOTTLES - 1 && #[trigger] t.marbles[j]
            == MarbleState::BottomRight implies t.bottles[j + 1]
        != BottleState::Bottom by {
        if s.marbles[j] == MarbleState::BottomRight {
            assert(s.wedged(j + 1));
        }
    }
}

/// A move never takes the tray beyond the larger of where it stood and the
/// last offset of the profile.
pub proof fn lemma_step_bounds_offset(s: State, m: Move)
    requires
        legal(s, m),
    ensures
        apply(s, m).tray_offset <= s.tray_offset || apply(s, m).tray_offset
            <= MAX_TRAY_OFFSET,
{
    if m == Move::TrayRight {
        lemma_valid_offset_in_range(s.tray_offset + 1, s.bottles@);
    } else if m == Move::TrayLeft {
        lemma_valid_offset_in_range(s.tray_offset - 1, s.bottles@);
    }
}

/// What holds of the start of a run holds of every state that the run
/// passes: to be valid, to be coherent, to be settled.
pub proof fn lemma_run_keeps(start: State, moves: Seq<Move>, states: Seq<State>, i: int)
    requires
        is_run(start, moves, states),
        0 <= i < states.len(),
    ensures
        start.valid() ==> states[i].valid(),
        start.coherent() ==> states[i].coherent(),
        start.settled() ==> states[i].settled(),
    decreases i,
{
    if i > 0 {
        lemma_run_keeps(start, moves, states, i - 1);
        let s = states[i - 1];
        let m = moves[i - 1];
        assert(step(s, m) == Some(states[i]));
        if s.valid() {
            lemma_step_keeps_valid(s, m);
        }
        if s.coherent() {
            lemma_step_keeps_coherent(s, m);
        }
        if s.settled() {
            lemma_step_keeps_settled(s, m);
        }
    }
}

} // verus!
