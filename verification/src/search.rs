//! Breadth-first search for a shortest way to take the tray out.

use std::collections::HashMap;
use vstd::prelude::*;
use crate::code::{lemma_code_bounds, lemma_code_one_to_one};
use crate::order::{first_among, shortlex_lt};
use crate::run::{
    faults, faults_first, is_answer, lemma_coherent_never_faults, reached_before, solves,
    unfaulted,
};
use crate::state::{apply, faulty, legal, move_count, step, Move, NextStatesIter, State};
use crate::tree::{
    expanded, fault_free, frontier, index_ok, lemma_exhausted, lemma_fault_first,
    lemma_explored_count, lemma_fault_not_before, lemma_first_found, lemma_no_shorter, lemma_path_is_run,
    lemma_tree_bounded, lemma_visit_known, lemma_visit_new, limit, link_ok, moves_to, reached,
    states_to, tree_wf, Node,
};

verus! {

/// A way from a start state to a solved state: the states passed, the start
/// first and the solved state last, and the moves between them; with the
/// number of states whose moves the search has tried to find it.
#[derive(Debug)]
pub struct Solution {
    pub states: Vec<State>,
    pub moves: Vec<Move>,
    pub explored: usize,
}

/// Why a search gives no solution.
#[derive(Clone, Copy, Debug, PartialEq, Eq, Structural)]
pub enum SearchError {
    /// The search came to try, for going up, a bottle that is at fault:
    /// the start state is none that moves bring about.
    InvariantViolation,
    /// No sequence of moves takes the tray out.
    NoSolution,
}

/// The items of `v` from the last to the first.
fn reversed<T: Copy>(v: &Vec<T>) -> (r: Vec<T>)
    ensures
        r@ == v@.reverse(),
{
    let mut r: Vec<T> = Vec::new();
    let mut i: usize = v.len();
    while i > 0
        invariant
            i <= v.len(),
            r.len() == v.len() - i,
            forall|j: int| 0 <= j < r.len() ==> r@[j] == v@[v.len() - 1 - j],
        decreases i,
    {
        i -= 1;
        r.push(v[i]);
    }
    assert(r@ =~= v@.reverse());
    r
}

/// Walks from node `from` back to the root, which the move `Invalid` marks,
/// and gives the way in the order in which it is gone, with one last move
/// and state behind it.
fn reconstruct(
    nodes: &Vec<Node>,
    from: usize,
    last_move: Move,
    last_state: State,
    explored: usize,
) -> (sol: Solution)
    requires
        tree_wf(nodes@, nodes@[0].state),
        from < nodes.len(),
    ensures
        sol.explored == explored,
        sol.moves@ == moves_to(nodes@, from as int).push(last_move),
        sol.states@ == states_to(nodes@, from as int).push(last_state),
{
    let ghost all_moves = moves_to(nodes@, from as int).push(last_move);
    let ghost all_states = states_to(nodes@, from as int).push(last_state);
    let mut back_states: Vec<State> = Vec::new();
    let mut back_moves: Vec<Move> = Vec::new();
    back_states.push(last_state);
    back_moves.push(last_move);
    let mut cur: usize = from;
    assert(all_moves =~= moves_to(nodes@, cur as int) + back_moves@.reverse());
    assert(all_states =~= states_to(nodes@, cur as int) + back_states@.reverse());
    loop
        invariant_except_break
            all_states == states_to(nodes@, cur as int) + back_states@.reverse(),
        invariant
            tree_wf(nodes@, nodes@[0].state),
            cur < nodes.len(),
            all_moves == moves_to(nodes@, cur as int) + back_moves@.reverse(),
        ensures
            all_states == back_states@.reverse(),
            all_moves == back_moves@.reverse(),
        decreases cur,
    {
        let node = nodes[cur];
        let ghost before_states = back_states@;
        let ghost before_moves = back_moves@;
        back_states.push(node.state);
        assert(back_states@.reverse() =~= seq![node.state] + before_states.reverse());
        if node.mv == Move::Invalid {
            proof {
                if cur > 0 {
                    assert(link_ok(nodes@, cur as int));
                }
                assert(states_to(nodes@, 0) =~= seq![node.state]);
                assert(moves_to(nodes@, 0) =~= Seq::<Move>::empty());
                assert(all_states =~= back_states@.reverse());
                assert(all_moves =~= back_moves@.reverse());
            }
            break;
        }
        back_moves.push(node.mv);
        proof {
            assert(cur > 0);
            assert(link_ok(nodes@, cur as int));
            assert(back_moves@.reverse() =~= seq![node.mv] + before_moves.reverse());
            let p = node.parent as int;
            assert(all_states =~= states_to(nodes@, p) + back_states@.reverse());
            assert(all_moves =~= moves_to(nodes@, p) + back_moves@.reverse());
        }
        cur = node.parent;
    }
    Solution { states: reversed(&back_states), moves: reversed(&back_moves), explored }
}

/// Searches breadth first, from `start`, for a state from which the tray
/// can be taken out, trying the moves of each state in the order of their
/// rank. The start itself is not tested: a solution has at least one move.
///
/// The search goes through the runs of moves from the shortest on, those of
/// one length in the order of enumeration. Its result is the first thing it
/// meets: the answer, if no run faults before it; a violation, if a run
/// faults before any run solves; and no solution if no run does either.
/// From a coherent start no run faults. With the answer comes the number of
/// states whose moves were tried: the state from which the last move
/// solves, and those that runs reach before the way to it.
pub fn solve(start: &State) -> (r: Result<Solution, SearchError>)
    ensures
        match r {
            Ok(sol) => {
                &&& is_answer(*start, sol.moves@, sol.states@)
                &&& unfaulted(*start, sol.moves@)
                &&& reached_before(*start, sol.moves@.drop_last()).finite()
                &&& sol.explored == reached_before(*start, sol.moves@.drop_last()).len() + 1
            },
            Err(SearchError::InvariantViolation) => exists|
                moves: Seq<Move>,
                states: Seq<State>,
                bottle: usize,
            | #[trigger] faults_first(*start, moves, states, bottle),
            Err(SearchError::NoSolution) => {
                &&& forall|moves: Seq<Move>, states: Seq<State>| !#[trigger] solves(
                    *start,
                    moves,
                    states,
                )
                &&& forall|moves: Seq<Move>, states: Seq<State>, bottle: usize| !#[trigger] faults(
                    *start,
                    moves,
                    states,
                    bottle,
                )
            },
        },
        start.coherent() ==> r != Err::<Solution, SearchError>(SearchError::InvariantViolation),
{
    let mut nodes: Vec<Node> = Vec::new();
    let mut index: HashMap<u128, usize> = HashMap::new();
    nodes.push(Node { state: *start, mv: Move::Invalid, parent: 0, depth: 0 });
    index.insert(start.code(), 0);
    let mut head: usize = 0;
    proof {
        lemma_code_bounds(*start);
        assert(tree_wf(nodes@, *start));
        assert(index_ok(index@, nodes@));
    }
    while head < nodes.len()
        invariant
            tree_wf(nodes@, *start),
            index_ok(index@, nodes@),
            frontier(nodes@, head as int, 0),
        decreases limit(*start) - head,
    {
        let state = nodes[head].state;
        let depth = nodes[head].depth;
        proof {
            assert(link_ok(nodes@, head as int) || head == 0);
        }
        let mut it = NextStatesIter::new(&state);
        loop
            invariant
                tree_wf(nodes@, *start),
                index_ok(index@, nodes@),
                head < nodes.len(),
                nodes@[head as int].state == state,
                nodes@[head as int].depth == depth,
                depth <= head,
                it.wf(),
                it.origin() == state,
                it.cursor().indexed(),
                frontier(nodes@, head as int, it.cursor().rank()),
            ensures
                frontier(nodes@, head as int, move_count()),
            decreases move_count() - it.cursor().rank(),
        {
            let ghost rank = it.cursor().rank();
            match it.next() {
                Err(v) => {
                    proof {
                        let way = moves_to(nodes@, head as int);
                        let passed = states_to(nodes@, head as int);
                        lemma_path_is_run(nodes@, *start, head as int);
                        assert(faults(*start, way, passed, v.bottle));
                        assert forall|other: Seq<Move>, others: Seq<State>| #[trigger]
                            solves(*start, other, others) implies shortlex_lt(
                            way.push(Move::BottleUp(v.bottle)),
                            other,
                        ) by {
                            lemma_fault_first(
                                nodes@,
                                *start,
                                head as int,
                                rank,
                                v.bottle,
                                other,
                                others,
                            );
                        }
                        assert(faults_first(*start, way, passed, v.bottle));
                        if start.coherent() {
                            lemma_coherent_never_faults(*start, way, passed, v.bottle);
                        }
                    }
                    return Err(SearchError::InvariantViolation);
                },
                Ok(None) => {
                    proof {
                        assert(expanded(nodes@, head as int, rank));
                        assert forall|mv: Move| #[trigger]
                            legal(state, mv) && mv.rank() < move_count() implies !apply(
                            state,
                            mv,
                        ).solved() && reached(
                            nodes@,
                            apply(state, mv),
                            moves_to(nodes@, head as int).push(mv),
                        ) by {
                            assert(mv.indexed());
                        }
                        assert(expanded(nodes@, head as int, move_count()));
                        assert forall|mv: Move| mv.rank() < move_count() implies !#[trigger] faulty(
                            state,
                            mv,
                        ) by {
                            if faulty(state, mv) {
                                assert(mv.indexed());
                            }
                        }
                        assert(fault_free(nodes@, head as int, move_count()));
                    }
                    break ;
                },
                Ok(Some((m, t))) => {
                    if t.is_solved() {
                        let sol = reconstruct(&nodes, head, m, t, head + 1);
                        proof {
                            lemma_path_is_run(nodes@, *start, head as int);
                            lemma_explored_count(nodes@, *start, head as int, rank);
                            assert(sol.moves@.drop_last() =~= moves_to(nodes@, head as int));
                            let before = states_to(nodes@, head as int);
                            assert forall|i: int| 0 <= i < sol.moves@.len() implies step(
                                sol.states@[i],
                                #[trigger] sol.moves@[i],
                            ) == Some(sol.states@[i + 1]) by {
                                if i < sol.moves@.len() - 1 {
                                    assert(sol.moves@[i] == moves_to(nodes@, head as int)[i]);
                                }
                            }
                            assert(sol.states@.last() == t);
                            assert forall|other: Seq<Move>, passed: Seq<State>| #[trigger]
                                solves(*start, other, passed) implies sol.moves@.len()
                                <= other.len() && (sol.moves@.len() == other.len()
                                ==> first_among(sol.moves@, other)) by {
                                lemma_no_shorter(nodes@, *start, head as int, rank, other, passed);
                                if sol.moves@.len() == other.len() {
                                    lemma_first_found(
                                        nodes@,
                                        *start,
                                        head as int,
                                        rank,
                                        m,
                                        other,
                                        passed,
                                    );
                                }
                            }
                            assert forall|other: Seq<Move>, passed: Seq<State>, bottle: usize|
                                #[trigger] faults(
                                    *start,
                                    other,
                                    passed,
                                    bottle,
                                ) implies !shortlex_lt(
                                other.push(Move::BottleUp(bottle)),
                                sol.moves@,
                            ) by {
                                lemma_fault_not_before(
                                    nodes@,
                                    *start,
                                    head as int,
                                    rank,
                                    m,
                                    other,
                                    passed,
                                    bottle,
                                );
                            }
                        }
                        return Ok(sol);
                    }
                    let c = t.code();
                    if !index.contains_key(&c) {
                        let node = Node { state: t, mv: m, parent: head, depth: depth + 1 };
                        proof {
                            lemma_visit_new(nodes@, *start, head as int, rank, node, m);
                            lemma_tree_bounded(nodes@.push(node), *start);
                        }
                        index.insert(c, nodes.len());
                        nodes.push(node);
                    } else {
                        proof {
                            let k = index@[c] as int;
                            lemma_code_one_to_one(nodes@[k].state, t);
                            lemma_visit_known(nodes@, *start, head as int, rank, m, k);
                        }
                    }
                },
            }
        }
        proof {
            lemma_tree_bounded(nodes@, *start);
            assert(frontier(nodes@, head + 1, 0)) by {
                assert(expanded(nodes@, head as int, move_count()));
                if head + 1 < nodes.len() {
                    assert forall|mv: Move| #[trigger]
                        legal(nodes@[head + 1].state, mv) && mv.rank() < 0 implies !apply(
                        nodes@[head + 1].state,
                        mv,
                    ).solved() && reached(
                        nodes@,
                        apply(nodes@[head + 1].state, mv),
                        moves_to(nodes@, head + 1).push(mv),
                    ) by {
                        assert(mv.indexed());
                    }
                    assert(nodes@[head as int].depth <= nodes@[head + 1].depth);
                    assert(fault_free(nodes@, head + 1, 0)) by {
                        assert forall|mv: Move| mv.rank() < 0 implies !#[trigger] faulty(
                            nodes@[head + 1].state,
                            mv,
                        ) by {
                            if faulty(nodes@[head + 1].state, mv) {
                                assert(mv.indexed());
                            }
                        }
                    }
                }
            }
        }
        head += 1;
    }
    proof {
        assert(head == nodes.len());
        assert(frontier(nodes@, nodes@.len() as int, move_count()));
        assert forall|moves: Seq<Move>, states: Seq<State>| !#[trigger] solves(
            *start,
            moves,
            states,
        ) by {
            lemma_exhausted(nodes@, *start, moves, states, 0);
        }
        assert forall|moves: Seq<Move>, states: Seq<State>, bottle: usize| !#[trigger] faults(
            *start,
            moves,
            states,
            bottle,
        ) by {
            lemma_exhausted(nodes@, *start, moves, states, bottle);
        }
    }
    Err(SearchError::NoSolution)
}

} // verus!
