//! Runs of moves, and what makes one of them the answer of a search.

use vstd::prelude::*;
use crate::invariants::lemma_run_keeps;
use crate::order::{comes_before, first_among, lemma_before_one_way, shortlex_lt};
use crate::state::{faulty, lemma_coherent_sound, step, Move, State};

verus! {

/// `moves` can be made one after the other from `start`, and `states` are
/// the states passed on the way, `start` included.
pub open spec fn is_run(start: State, moves: Seq<Move>, states: Seq<State>) -> bool {
    &&& states.len() == moves.len() + 1
    &&& states[0] == start
    &&& forall|i: int|
        0 <= i < moves.len() ==> step(states[i], #[trigger] moves[i]) == Some(states[i + 1])
}

/// Some run of `n` moves from `start` ends in `t`.
pub open spec fn reaches(start: State, t: State, n: nat) -> bool {
    exists|moves: Seq<Move>, states: Seq<State>| #[trigger]
        is_run(start, moves, states) && moves.len() == n && states.last() == t
}

/// `moves` is a run of at least one move from `start` that ends in a solved
/// state.
pub open spec fn solves(start: State, moves: Seq<Move>, states: Seq<State>) -> bool {
    &&& is_run(start, moves, states)
    &&& moves.len() >= 1
    &&& states.last().solved()
}

/// `moves` solves from `start` with the fewest moves, and is the first, in
/// the order of enumeration, of the runs that do so.
pub open spec fn is_answer(start: State, moves: Seq<Move>, states: Seq<State>) -> bool {
    &&& solves(start, moves, states)
    &&& forall|other: Seq<Move>, passed: Seq<State>| #[trigger]
        solves(start, other, passed) ==> moves.len() <= other.len() && (moves.len() == other.len()
            ==> first_among(moves, other))
}

/// `moves` is a run from `start` to a state in which `bottle` is at fault:
/// the run followed by the try to raise that bottle is where a search
/// meets the violation.
pub open spec fn faults(start: State, moves: Seq<Move>, states: Seq<State>, bottle: usize) -> bool {
    is_run(start, moves, states) && faulty(states.last(), Move::BottleUp(bottle))
}

/// `moves` faults at `bottle`, and the run followed by that try comes
/// before every run that solves: shorter, or as long and earlier in the
/// order of enumeration.
pub open spec fn faults_first(
    start: State,
    moves: Seq<Move>,
    states: Seq<State>,
    bottle: usize,
) -> bool {
    &&& faults(start, moves, states, bottle)
    &&& forall|other: Seq<Move>, passed: Seq<State>| #[trigger]
        solves(start, other, passed) ==> shortlex_lt(moves.push(Move::BottleUp(bottle)), other)
}

/// No run from `start` faults before `moves`.
pub open spec fn unfaulted(start: State, moves: Seq<Move>) -> bool {
    forall|other: Seq<Move>, passed: Seq<State>, bottle: usize| #[trigger]
        faults(start, other, passed, bottle) ==> !shortlex_lt(
            other.push(Move::BottleUp(bottle)),
            moves,
        )
}

/// The states that some run from `start` reaches before `way`: by fewer
/// moves, or by as many moves that come before in the order of
/// enumeration.
pub open spec fn reached_before(start: State, way: Seq<Move>) -> Set<State> {
    Set::new(
        |t: State|
            exists|moves: Seq<Move>, states: Seq<State>| #[trigger]
                is_run(start, moves, states) && states.last() == t && shortlex_lt(moves, way),
    )
}

/// A search has one outcome: where a run faults before every run that
/// solves, no run that solves has all the runs that fault behind it.
pub proof fn lemma_violation_excludes_answer(
    start: State,
    moves: Seq<Move>,
    states: Seq<State>,
    other: Seq<Move>,
    passed: Seq<State>,
    bottle: usize,
)
    ensures
        !(faults_first(start, other, passed, bottle) && solves(start, moves, states) && unfaulted(
            start,
            moves,
        )),
{
}

/// No run from a coherent start faults.
pub proof fn lemma_coherent_never_faults(
    start: State,
    moves: Seq<Move>,
    states: Seq<State>,
    bottle: usize,
)
    requires
        start.coherent(),
    ensures
        !faults(start, moves, states, bottle),
{
    if faults(start, moves, states, bottle) {
        lemma_run_keeps(start, moves, states, states.len() - 1);
        lemma_coherent_sound(states.last());
        assert(!states.last().fault_at(bottle as int));
    }
}

/// The moves of a run decide the states it passes.
pub proof fn lemma_run_states_unique(
    start: State,
    moves: Seq<Move>,
    states: Seq<State>,
    others: Seq<State>,
)
    requires
        is_run(start, moves, states),
        is_run(start, moves, others),
    ensures
        states == others,
{
    assert forall|i: int| 0 <= i < states.len() implies states[i] == others[i] by {
        lemma_run_states_agree(start, moves, states, others, i);
    }
    assert(states =~= others);
}

/// Two runs of the same moves agree on the state at each step.
proof fn lemma_run_states_agree(
    start: State,
    moves: Seq<Move>,
    states: Seq<State>,
    others: Seq<State>,
    i: int,
)
    requires
        is_run(start, moves, states),
        is_run(start, moves, others),
        0 <= i < states.len(),
    ensures
        states[i] == others[i],
    decreases i,
{
    if i > 0 {
        lemma_run_states_agree(start, moves, states, others, i - 1);
        assert(step(states[i - 1], moves[i - 1]) == Some(states[i]));
        assert(step(others[i - 1], moves[i - 1]) == Some(others[i]));
    }
}

/// A start state has at most one answer: whatever finds the answer finds
/// the same moves and the same states.
pub proof fn lemma_answer_unique(
    start: State,
    moves: Seq<Move>,
    states: Seq<State>,
    other: Seq<Move>,
    passed: Seq<State>,
)
    requires
        is_answer(start, moves, states),
        is_answer(start, other, passed),
    ensures
        moves == other,
        states == passed,
{
    assert(solves(start, moves, states));
    assert(solves(start, other, passed));
    if comes_before(moves, other) {
        lemma_before_one_way(moves, other);
    }
    lemma_run_states_unique(start, moves, states, passed);
}

} // verus!
