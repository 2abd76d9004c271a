//! The tree that a breadth-first search grows: what holds of it while the
//! search goes on, and what follows for the runs of moves from its root.

use vstd::prelude::*;
use vstd::set_lib::{lemma_int_range, lemma_len_subset, set_int_range};
use crate::code::{lemma_code_bounds, lemma_code_one_to_one, spec_code, ROW_STATES};
use crate::geometry::MAX_TRAY_OFFSET;
use crate::invariants::lemma_step_bounds_offset;
use crate::order::{
    comes_before, first_among, lemma_before_last, lemma_before_one_way, lemma_before_push,
    lemma_before_same_start, lemma_rank_one_to_one, lemma_shortlex_push, lemma_shortlex_trans,
    shortlex_le, shortlex_lt,
};
use crate::run::{faults, is_run, reached_before, solves};
use crate::state::{apply, faulty, legal, move_count, passed_over, step, Move, State};

verus! {

/// A state that the search has met, with the move that led to it first, the
/// place of the state it came from, and the number of moves from the start.
#[derive(Clone, Copy)]
pub(crate) struct Node {
    pub(crate) state: State,
    pub(crate) mv: Move,
    pub(crate) parent: usize,
    pub(crate) depth: usize,
}

/// The largest tray offset that a run from `start` can pass.
pub(crate) open spec fn reach(start: State) -> int {
    if start.tray_offset > MAX_TRAY_OFFSET {
        start.tray_offset as int
    } else {
        MAX_TRAY_OFFSET as int
    }
}

/// More states than this no run from `start` can pass.
pub(crate) open spec fn limit(start: State) -> int {
    (reach(start) + 1) * ROW_STATES
}

/// Node `k` hangs under an earlier node, one allowed move away from it.
pub(crate) open spec fn link_ok(nodes: Seq<Node>, k: int) -> bool {
    let n = nodes[k];
    let p = nodes[n.parent as int];
    &&& n.parent < k
    &&& step(p.state, n.mv) == Some(n.state)
    &&& n.depth == p.depth + 1
    &&& n.depth <= k
    &&& !n.state.solved()
}

/// The nodes form a tree rooted in `start`, hold each state once, and stand
/// in the order of their depth, those of one depth in the order in which
/// the enumeration gives the moves that lead to them.
pub(crate) open spec fn tree_wf(nodes: Seq<Node>, start: State) -> bool {
    &&& nodes.len() >= 1
    &&& nodes[0] == (Node { state: start, mv: Move::Invalid, parent: 0, depth: 0 })
    &&& forall|k: int| 1 <= k < nodes.len() ==> #[trigger] link_ok(nodes, k)
    &&& forall|j: int, k: int|
        0 <= j < k < nodes.len() ==> (#[trigger] nodes[j]).state != (#[trigger] nodes[k]).state
    &&& forall|j: int, k: int|
        0 <= j <= k < nodes.len() ==> (#[trigger] nodes[j]).depth <= (#[trigger] nodes[k]).depth
    &&& forall|k: int|
        0 <= k < nodes.len() ==> (#[trigger] nodes[k]).state.tray_offset <= reach(start)
    &&& forall|j: int, k: int|
        0 <= j < k < nodes.len() ==> shortlex_lt(
            #[trigger] moves_to(nodes, j),
            #[trigger] moves_to(nodes, k),
        )
}

/// The index finds each node by the code of its state.
pub(crate) open spec fn index_ok(index: Map<u128, usize>, nodes: Seq<Node>) -> bool {
    &&& forall|k: int, c: u128|
        0 <= k < nodes.len() && c == spec_code((#[trigger] nodes[k]).state)
            ==> #[trigger] index.contains_key(c)
    &&& forall|c: u128| #[trigger]
        index.contains_key(c) ==> index[c] < nodes.len() && spec_code(
            nodes[index[c] as int].state,
        ) == c
}

/// The state `t` is among the nodes, and the moves from the root to it are
/// not behind `trail`.
pub(crate) open spec fn reached(nodes: Seq<Node>, t: State, trail: Seq<Move>) -> bool {
    exists|k: int|
        0 <= k < nodes.len() && (#[trigger] nodes[k]).state == t && shortlex_le(
            moves_to(nodes, k),
            trail,
        )
}

/// Each allowed move of node `j` whose rank is below `rank` leads to a state
/// that is not solved and is among the nodes, no further behind than by
/// that move.
pub(crate) open spec fn expanded(nodes: Seq<Node>, j: int, rank: int) -> bool {
    forall|m: Move| #[trigger]
        legal(nodes[j].state, m) && m.rank() < rank ==> !apply(nodes[j].state, m).solved()
            && reached(nodes, apply(nodes[j].state, m), moves_to(nodes, j).push(m))
}

/// No move of node `j` whose rank is below `rank` is at fault.
pub(crate) open spec fn fault_free(nodes: Seq<Node>, j: int, rank: int) -> bool {
    forall|m: Move| m.rank() < rank ==> !#[trigger] faulty(nodes[j].state, m)
}

/// The nodes before `head` are expanded and free of fault, node `head` up
/// to `rank`; no node is more than one deeper than node `head`, and none
/// hangs under a node behind `head`, or under `head` by a move of rank
/// `rank` or more.
pub(crate) open spec fn frontier(nodes: Seq<Node>, head: int, rank: int) -> bool {
    &&& 0 <= head <= nodes.len()
    &&& forall|j: int| 0 <= j < head ==> #[trigger] expanded(nodes, j, move_count())
    &&& forall|j: int| 0 <= j < head ==> #[trigger] fault_free(nodes, j, move_count())
    &&& head < nodes.len() ==> expanded(nodes, head, rank)
    &&& head < nodes.len() ==> fault_free(nodes, head, rank)
    &&& head < nodes.len() ==> forall|k: int|
        0 <= k < nodes.len() ==> (#[trigger] nodes[k]).depth <= nodes[head].depth + 1
    &&& forall|k: int|
        1 <= k < nodes.len() ==> (#[trigger] nodes[k]).parent <= head && (nodes[k].parent == head
            ==> nodes[k].mv.rank() < rank)
}

/// Before its step `i` the run has passed a node that is not expanded, or
/// node `head` by a move that is not yet tried, no later than the node's
/// depth.
pub(crate) open spec fn crossed(
    nodes: Seq<Node>,
    head: int,
    rank: int,
    moves: Seq<Move>,
    states: Seq<State>,
    i: int,
) -> bool {
    exists|j: int, k: int|
        0 <= j < i && head <= k < nodes.len() && (#[trigger] nodes[k]).state
            == #[trigger] states[j] && nodes[k].depth <= j && (k == head ==> moves[j].rank()
            >= rank)
}

/// The moves from the root to node `k`.
pub(crate) open spec fn moves_to(nodes: Seq<Node>, k: int) -> Seq<Move>
    decreases k,
{
    if k <= 0 || nodes[k].parent >= k {
        Seq::empty()
    } else {
        moves_to(nodes, nodes[k].parent as int).push(nodes[k].mv)
    }
}

/// The states from the root to node `k`, both included.
pub(crate) open spec fn states_to(nodes: Seq<Node>, k: int) -> Seq<State>
    decreases k,
{
    if k <= 0 || nodes[k].parent >= k {
        seq![nodes[k].state]
    } else {
        states_to(nodes, nodes[k].parent as int).push(nodes[k].state)
    }
}

/// The way from the root to a node is a run from the start, of as many
/// moves as the node is deep, and ends in the state of the node.
pub(crate) proof fn lemma_path_is_run(nodes: Seq<Node>, start: State, k: int)
    requires
        tree_wf(nodes, start),
        0 <= k < nodes.len(),
    ensures
        is_run(start, moves_to(nodes, k), states_to(nodes, k)),
        moves_to(nodes, k).len() == nodes[k].depth,
        states_to(nodes, k).last() == nodes[k].state,
    decreases k,
{
    if k > 0 {
        assert(link_ok(nodes, k));
        let p = nodes[k].parent as int;
        lemma_path_is_run(nodes, start, p);
        let moves = moves_to(nodes, k);
        let states = states_to(nodes, k);
        assert forall|i: int| 0 <= i < moves.len() implies step(states[i], #[trigger] moves[i])
            == Some(states[i + 1]) by {
            if i < moves.len() - 1 {
                assert(moves[i] == moves_to(nodes, p)[i]);
            }
        }
    }
}

/// A tree holds no more nodes than there are states within reach.
pub(crate) proof fn lemma_tree_bounded(nodes: Seq<Node>, start: State)
    requires
        tree_wf(nodes, start),
    ensures
        nodes.len() <= limit(start),
{
    let codes = nodes.map_values(|n: Node| spec_code(n.state));
    assert forall|i: int, j: int|
        0 <= i < codes.len() && 0 <= j < codes.len() && i != j implies codes[i] != codes[j] by {
        if codes[i] == codes[j] {
            lemma_code_one_to_one(nodes[i].state, nodes[j].state);
        }
    }
    codes.unique_seq_to_set();
    let all = set_int_range(0, limit(start));
    lemma_int_range(0, limit(start));
    assert forall|c: int| codes.to_set().contains(c) implies all.contains(c) by {
        let i = choose|i: int| 0 <= i < codes.len() && codes[i] == c;
        let offset = nodes[i].state.tray_offset as int;
        let most = reach(start);
        lemma_code_bounds(nodes[i].state);
        assert((offset + 1) * 531441 <= (most + 1) * 531441) by (nonlinear_arith)
            requires
                offset <= most,
        ;
    }
    lemma_len_subset(codes.to_set(), all);
}

/// The moves to a node do not change when a node is added.
pub(crate) proof fn lemma_moves_to_grows(nodes: Seq<Node>, node: Node, k: int)
    requires
        0 <= k < nodes.len(),
    ensures
        moves_to(nodes.push(node), k) == moves_to(nodes, k),
    decreases k,
{
    let grown = nodes.push(node);
    assert(grown[k] == nodes[k]);
    if !(k <= 0 || nodes[k].parent >= k) {
        lemma_moves_to_grows(nodes, node, nodes[k].parent as int);
    }
}

/// Follows a run from the start up to its step `i`: either it has crossed
/// the frontier before, or it has stayed among the nodes, none of which is
/// behind the run, and past the start among states that are not solved.
pub(crate) proof fn lemma_run_meets_frontier(
    nodes: Seq<Node>,
    start: State,
    head: int,
    rank: int,
    moves: Seq<Move>,
    states: Seq<State>,
    i: int,
)
    requires
        tree_wf(nodes, start),
        frontier(nodes, head, rank),
        rank <= move_count(),
        is_run(start, moves, states),
        0 <= i <= moves.len(),
    ensures
        crossed(nodes, head, rank, moves, states, i) || (reached(
            nodes,
            states[i],
            moves.take(i),
        ) && (i >= 1 ==> !states[i].solved())),
    decreases i,
{
    if i == 0 {
        assert(nodes[0].state == states[0]);
        assert(moves_to(nodes, 0) =~= moves.take(0));
    } else {
        lemma_run_meets_frontier(nodes, start, head, rank, moves, states, i - 1);
        if crossed(nodes, head, rank, moves, states, i - 1) {
            let (j, k) = choose|j: int, k: int|
                0 <= j < i - 1 && head <= k < nodes.len() && (#[trigger] nodes[k]).state
                    == #[trigger] states[j] && nodes[k].depth <= j && (k == head
                    ==> moves[j].rank() >= rank);
            assert(nodes[k].state == states[j]);
        } else {
            let before = moves.take(i - 1);
            let k = choose|k: int|
                0 <= k < nodes.len() && (#[trigger] nodes[k]).state == states[i - 1]
                    && shortlex_le(moves_to(nodes, k), before);
            let m = moves[i - 1];
            lemma_path_is_run(nodes, start, k);
            assert(nodes[k].depth <= i - 1);
            assert(step(states[i - 1], m) == Some(states[i]));
            assert(legal(nodes[k].state, m));
            if k > head || (k == head && m.rank() >= rank) {
                assert(nodes[k].state == states[i - 1]);
            } else {
                if k < head {
                    assert(expanded(nodes, k, move_count()));
                } else {
                    assert(expanded(nodes, k, rank));
                }
                let t = apply(nodes[k].state, m);
                let via = moves_to(nodes, k).push(m);
                assert(reached(nodes, t, via));
                let k2 = choose|k2: int|
                    0 <= k2 < nodes.len() && (#[trigger] nodes[k2]).state == t && shortlex_le(
                        moves_to(nodes, k2),
                        via,
                    );
                lemma_shortlex_push(moves_to(nodes, k), before, m);
                assert(before.push(m) =~= moves.take(i));
                lemma_shortlex_trans(moves_to(nodes, k2), via, moves.take(i));
                assert(nodes[k2].state == states[i]);
            }
        }
    }
}

/// While node `head` waits, no run that solves takes fewer moves than the
/// depth of that node and one more.
pub(crate) proof fn lemma_no_shorter(
    nodes: Seq<Node>,
    start: State,
    head: int,
    rank: int,
    moves: Seq<Move>,
    states: Seq<State>,
)
    requires
        tree_wf(nodes, start),
        frontier(nodes, head, rank),
        rank <= move_count(),
        head < nodes.len(),
        solves(start, moves, states),
    ensures
        moves.len() >= nodes[head].depth + 1,
{
    let n = moves.len() as int;
    lemma_run_meets_frontier(nodes, start, head, rank, moves, states, n);
    assert(states[n] == states.last());
    let (j, k) = choose|j: int, k: int|
        0 <= j < n && head <= k < nodes.len() && (#[trigger] nodes[k]).state
            == #[trigger] states[j] && nodes[k].depth <= j && (k == head ==> moves[j].rank()
            >= rank);
    assert(nodes[head].depth <= nodes[k].depth);
}

/// When the move `m` of node `head` solves, and no allowed move of that
/// node between `rank` and `m` is left out, the way to node `head` and then
/// `m` is the first of the runs of its length that solve.
pub(crate) proof fn lemma_first_found(
    nodes: Seq<Node>,
    start: State,
    head: int,
    rank: int,
    m: Move,
    moves: Seq<Move>,
    states: Seq<State>,
)
    requires
        tree_wf(nodes, start),
        frontier(nodes, head, rank),
        0 <= head < nodes.len(),
        m.indexed(),
        rank <= m.rank(),
        passed_over(nodes[head].state, rank, m.rank()),
        solves(start, moves, states),
        moves.len() == nodes[head].depth + 1,
    ensures
        first_among(moves_to(nodes, head).push(m), moves),
        !legal(nodes[head].state, m) ==> comes_before(moves_to(nodes, head).push(m), moves),
{
    let d = nodes[head].depth as int;
    let found = moves_to(nodes, head);
    let before = moves.take(d);
    let x = moves[d];
    lemma_path_is_run(nodes, start, head);
    lemma_run_meets_frontier(nodes, start, head, rank, moves, states, d);
    assert(step(states[d], x) == Some(states[d + 1]));
    assert(states[d + 1] == states.last());
    assert(before.push(x) =~= moves);
    if crossed(nodes, head, rank, moves, states, d) {
        let (j, k) = choose|j: int, k: int|
            0 <= j < d && head <= k < nodes.len() && (#[trigger] nodes[k]).state
                == #[trigger] states[j] && nodes[k].depth <= j && (k == head ==> moves[j].rank()
                >= rank);
        assert(nodes[head].depth <= nodes[k].depth);
    } else {
        let k = choose|k: int|
            0 <= k < nodes.len() && (#[trigger] nodes[k]).state == states[d] && shortlex_le(
                moves_to(nodes, k),
                before,
            );
        lemma_path_is_run(nodes, start, k);
        assert(legal(nodes[k].state, x));
        assert(x.indexed());
        if k < head {
            assert(expanded(nodes, k, move_count()));
        } else if k == head {
            assert(expanded(nodes, k, rank));
            assert(x.rank() >= m.rank());
            if found == before {
                if x.rank() == m.rank() {
                    lemma_rank_one_to_one(x, m);
                } else {
                    lemma_before_last(found, m, x);
                }
            } else {
                lemma_before_push(found, before, m, x);
            }
        } else {
            assert(shortlex_lt(moves_to(nodes, head), moves_to(nodes, k)));
            lemma_shortlex_trans(found, moves_to(nodes, k), before);
            lemma_before_push(found, before, m, x);
        }
    }
}

/// While node `head` waits, the states of the nodes before it are the
/// states that runs reach before the way to node `head`, each once.
pub(crate) proof fn lemma_explored_count(nodes: Seq<Node>, start: State, head: int, rank: int)
    requires
        tree_wf(nodes, start),
        frontier(nodes, head, rank),
        rank <= move_count(),
        0 <= head < nodes.len(),
    ensures
        reached_before(start, moves_to(nodes, head)).finite(),
        reached_before(start, moves_to(nodes, head)).len() == head,
{
    let found = moves_to(nodes, head);
    let met = nodes.take(head).map_values(|n: Node| n.state);
    lemma_path_is_run(nodes, start, head);
    assert forall|i: int, j: int|
        0 <= i < met.len() && 0 <= j < met.len() && i != j implies met[i] != met[j] by {
        assert(nodes[i].state == met[i]);
        assert(nodes[j].state == met[j]);
    }
    met.unique_seq_to_set();
    vstd::seq_lib::seq_to_set_is_finite(met);
    assert forall|t: State| met.to_set().contains(t) implies reached_before(
        start,
        found,
    ).contains(t) by {
        let k = choose|k: int| 0 <= k < met.len() && met[k] == t;
        assert(nodes[k].state == t);
        lemma_path_is_run(nodes, start, k);
        assert(shortlex_lt(moves_to(nodes, k), moves_to(nodes, head)));
        assert(is_run(start, moves_to(nodes, k), states_to(nodes, k)));
    }
    assert forall|t: State| reached_before(start, found).contains(t) implies met.to_set().contains(
        t,
    ) by {
        let (moves, states) = choose|moves: Seq<Move>, states: Seq<State>| #[trigger]
            is_run(start, moves, states) && states.last() == t && shortlex_lt(moves, found);
        let n = moves.len() as int;
        lemma_run_meets_frontier(nodes, start, head, rank, moves, states, n);
        assert(states[n] == states.last());
        assert(moves.take(n) =~= moves);
        if crossed(nodes, head, rank, moves, states, n) {
            let (j, k) = choose|j: int, k: int|
                0 <= j < n && head <= k < nodes.len() && (#[trigger] nodes[k]).state
                    == #[trigger] states[j] && nodes[k].depth <= j && (k == head
                    ==> moves[j].rank() >= rank);
            assert(nodes[head].depth <= nodes[k].depth);
        } else {
            let k = choose|k: int|
                0 <= k < nodes.len() && (#[trigger] nodes[k]).state == states[n] && shortlex_le(
                    moves_to(nodes, k),
                    moves,
                );
            lemma_path_is_run(nodes, start, k);
            lemma_shortlex_trans(moves_to(nodes, k), moves, found);
            if k >= head {
                if k > head {
                    assert(shortlex_lt(moves_to(nodes, head), moves_to(nodes, k)));
                }
                lemma_before_one_way(moves_to(nodes, k), found);
            }
            assert(met[k] == t);
        }
    }
    assert(met.to_set() =~= reached_before(start, found));
}

/// Once every node is expanded, no run solves and no run faults.
pub(crate) proof fn lemma_exhausted(
    nodes: Seq<Node>,
    start: State,
    moves: Seq<Move>,
    states: Seq<State>,
    bottle: usize,
)
    requires
        tree_wf(nodes, start),
        frontier(nodes, nodes.len() as int, move_count()),
    ensures
        !solves(start, moves, states),
        !faults(start, moves, states, bottle),
{
    if is_run(start, moves, states) {
        let n = moves.len() as int;
        lemma_run_meets_frontier(nodes, start, nodes.len() as int, move_count(), moves, states, n);
        assert(states[n] == states.last());
        if faults(start, moves, states, bottle) {
            let k = choose|k: int|
                0 <= k < nodes.len() && (#[trigger] nodes[k]).state == states[n] && shortlex_le(
                    moves_to(nodes, k),
                    moves.take(n),
                );
            assert(fault_free(nodes, k, move_count()));
            assert(faulty(nodes[k].state, Move::BottleUp(bottle)));
        }
    }
}

/// While the move `m` of node `head` is the next to be tried, no run that
/// faults comes before the way to node `head` followed by `m`.
pub(crate) proof fn lemma_fault_not_before(
    nodes: Seq<Node>,
    start: State,
    head: int,
    rank: int,
    m: Move,
    moves: Seq<Move>,
    states: Seq<State>,
    bottle: usize,
)
    requires
        tree_wf(nodes, start),
        frontier(nodes, head, rank),
        0 <= head < nodes.len(),
        m.indexed(),
        rank <= m.rank(),
        passed_over(nodes[head].state, rank, m.rank()),
        faults(start, moves, states, bottle),
    ensures
        !shortlex_lt(moves.push(Move::BottleUp(bottle)), moves_to(nodes, head).push(m)),
{
    let try_up = Move::BottleUp(bottle);
    let found = moves_to(nodes, head);
    let n = moves.len() as int;
    lemma_path_is_run(nodes, start, head);
    if shortlex_lt(moves.push(try_up), found.push(m)) {
        lemma_run_meets_frontier(nodes, start, head, rank, moves, states, n);
        assert(states[n] == states.last());
        assert(moves.take(n) =~= moves);
        if crossed(nodes, head, rank, moves, states, n) {
            let (j, k) = choose|j: int, k: int|
                0 <= j < n && head <= k < nodes.len() && (#[trigger] nodes[k]).state
                    == #[trigger] states[j] && nodes[k].depth <= j && (k == head
                    ==> moves[j].rank() >= rank);
            assert(nodes[head].depth <= nodes[k].depth);
        } else {
            let k = choose|k: int|
                0 <= k < nodes.len() && (#[trigger] nodes[k]).state == states[n] && shortlex_le(
                    moves_to(nodes, k),
                    moves,
                );
            lemma_path_is_run(nodes, start, k);
            assert(faulty(nodes[k].state, try_up));
            if k < head {
                assert(fault_free(nodes, k, move_count()));
            } else {
                assert(nodes[head].depth <= nodes[k].depth);
                assert(comes_before(moves.push(try_up), found.push(m)));
                if k > head {
                    assert(shortlex_lt(moves_to(nodes, head), moves_to(nodes, k)));
                    lemma_shortlex_trans(found, moves_to(nodes, k), moves);
                }
                if found == moves {
                    lemma_before_same_start(found, try_up, m);
                    assert(fault_free(nodes, head, rank));
                } else {
                    lemma_before_push(found, moves, m, try_up);
                    lemma_before_one_way(found.push(m), moves.push(try_up));
                }
            }
        }
    }
}

/// When the enumeration of node `head` comes to a bottle at fault, the way
/// to that node followed by the try to raise the bottle comes before every
/// run that solves.
pub(crate) proof fn lemma_fault_first(
    nodes: Seq<Node>,
    start: State,
    head: int,
    rank: int,
    bottle: usize,
    moves: Seq<Move>,
    states: Seq<State>,
)
    requires
        tree_wf(nodes, start),
        frontier(nodes, head, rank),
        0 <= head < nodes.len(),
        rank <= Move::BottleUp(bottle).rank(),
        passed_over(nodes[head].state, rank, Move::BottleUp(bottle).rank()),
        faulty(nodes[head].state, Move::BottleUp(bottle)),
        solves(start, moves, states),
    ensures
        shortlex_lt(moves_to(nodes, head).push(Move::BottleUp(bottle)), moves),
{
    lemma_path_is_run(nodes, start, head);
    lemma_no_shorter(nodes, start, head, rank, moves, states);
    if moves.len() == nodes[head].depth + 1 {
        lemma_first_found(nodes, start, head, rank, Move::BottleUp(bottle), moves, states);
    }
}

/// A node that is expanded stays so when a node is added.
pub(crate) proof fn lemma_expanded_grows(nodes: Seq<Node>, node: Node, j: int, rank: int)
    requires
        0 <= j < nodes.len(),
        expanded(nodes, j, rank),
    ensures
        expanded(nodes.push(node), j, rank),
{
    let grown = nodes.push(node);
    lemma_moves_to_grows(nodes, node, j);
    assert forall|mv: Move| #[trigger] legal(grown[j].state, mv) && mv.rank() < rank implies !apply(
        grown[j].state,
        mv,
    ).solved() && reached(grown, apply(grown[j].state, mv), moves_to(grown, j).push(mv)) by {
        let t = apply(nodes[j].state, mv);
        let via = moves_to(nodes, j).push(mv);
        assert(legal(nodes[j].state, mv));
        assert(reached(nodes, t, via));
        let k = choose|k: int|
            0 <= k < nodes.len() && (#[trigger] nodes[k]).state == t && shortlex_le(
                moves_to(nodes, k),
                via,
            );
        lemma_moves_to_grows(nodes, node, k);
        assert(grown[k].state == t);
    }
}

/// The way to any node comes before the way to node `head` followed by a
/// move that is not yet tried.
pub(crate) proof fn lemma_child_precedes(
    nodes: Seq<Node>,
    start: State,
    head: int,
    rank: int,
    j: int,
    m: Move,
)
    requires
        tree_wf(nodes, start),
        frontier(nodes, head, rank),
        0 <= head < nodes.len(),
        0 <= j < nodes.len(),
        rank <= m.rank(),
    ensures
        shortlex_lt(moves_to(nodes, j), moves_to(nodes, head).push(m)),
{
    lemma_path_is_run(nodes, start, j);
    lemma_path_is_run(nodes, start, head);
    assert(nodes[j].depth <= nodes[head].depth + 1);
    if nodes[j].depth == nodes[head].depth + 1 {
        assert(j >= 1);
        assert(link_ok(nodes, j));
        let p = nodes[j].parent as int;
        lemma_path_is_run(nodes, start, p);
        assert(moves_to(nodes, j) == moves_to(nodes, p).push(nodes[j].mv));
        if p == head {
            lemma_before_last(moves_to(nodes, head), nodes[j].mv, m);
        } else {
            assert(shortlex_lt(moves_to(nodes, p), moves_to(nodes, head)));
            lemma_before_push(moves_to(nodes, p), moves_to(nodes, head), nodes[j].mv, m);
        }
    }
}

/// Once the allowed move `m` of node `head` is tried, and no move between
/// `rank` and `m` is at fault, node `head` is free of fault up to and
/// including `m`.
pub(crate) proof fn lemma_fault_free_on(nodes: Seq<Node>, head: int, rank: int, m: Move)
    requires
        0 <= head < nodes.len(),
        fault_free(nodes, head, rank),
        m.indexed(),
        rank <= m.rank(),
        legal(nodes[head].state, m),
        passed_over(nodes[head].state, rank, m.rank()),
    ensures
        fault_free(nodes, head, m.rank() + 1),
{
    assert forall|mv: Move| mv.rank() < m.rank() + 1 implies !#[trigger] faulty(
        nodes[head].state,
        mv,
    ) by {
        if faulty(nodes[head].state, mv) {
            assert(mv.indexed());
            if mv.rank() == m.rank() {
                lemma_rank_one_to_one(mv, m);
            }
        }
    }
}

/// Once the move `m` of node `head` has led to a state that is not solved
/// and is among the nodes, and no allowed move between `rank` and `m` is
/// left out, node `head` is expanded up to and including `m`.
pub(crate) proof fn lemma_visit_known(nodes: Seq<Node>, start: State, head: int, rank: int, m: Move, k: int)
    requires
        tree_wf(nodes, start),
        frontier(nodes, head, rank),
        0 <= head < nodes.len(),
        m.indexed(),
        rank <= m.rank(),
        legal(nodes[head].state, m),
        passed_over(nodes[head].state, rank, m.rank()),
        !apply(nodes[head].state, m).solved(),
        0 <= k < nodes.len(),
        nodes[k].state == apply(nodes[head].state, m),
    ensures
        frontier(nodes, head, m.rank() + 1),
{
    lemma_child_precedes(nodes, start, head, rank, k, m);
    assert(reached(nodes, apply(nodes[head].state, m), moves_to(nodes, head).push(m)));
    assert(expanded(nodes, head, rank));
    lemma_fault_free_on(nodes, head, rank, m);
    assert forall|mv: Move| #[trigger]
        legal(nodes[head].state, mv) && mv.rank() < m.rank() + 1 implies !apply(
        nodes[head].state,
        mv,
    ).solved() && reached(nodes, apply(nodes[head].state, mv), moves_to(nodes, head).push(mv)) by {
        assert(mv.indexed());
        if mv.rank() == m.rank() {
            lemma_rank_one_to_one(mv, m);
        }
    }
}

/// A new node under node `head`, for a state that is not solved and not yet
/// among the nodes, keeps the tree; and if no allowed move between `rank`
/// and `m` is left out, node `head` is then expanded up to and including
/// `m`.
pub(crate) proof fn lemma_visit_new(nodes: Seq<Node>, start: State, head: int, rank: int, node: Node, m: Move)
    requires
        tree_wf(nodes, start),
        frontier(nodes, head, rank),
        0 <= head < nodes.len(),
        m.indexed(),
        rank <= m.rank(),
        legal(nodes[head].state, m),
        passed_over(nodes[head].state, rank, m.rank()),
        nodes.len() <= usize::MAX,
        nodes[head].depth < nodes.len(),
        node == (Node {
            state: apply(nodes[head].state, m),
            mv: m,
            parent: head as usize,
            depth: (nodes[head].depth + 1) as usize,
        }),
        !node.state.solved(),
        forall|k: int| 0 <= k < nodes.len() ==> (#[trigger] nodes[k]).state != node.state,
    ensures
        tree_wf(nodes.push(node), start),
        frontier(nodes.push(node), head, m.rank() + 1),
{
    let grown = nodes.push(node);
    let last = nodes.len() as int;
    assert(link_ok(nodes, head) || head == 0);
    assert(nodes[head].depth <= head);
    lemma_step_bounds_offset(nodes[head].state, m);
    lemma_fault_free_on(nodes, head, rank, m);
    assert forall|j: int| 0 <= j < head implies #[trigger] fault_free(grown, j, move_count()) by {
        assert(fault_free(nodes, j, move_count()));
        assert(grown[j] == nodes[j]);
    }
    assert(fault_free(grown, head, m.rank() + 1)) by {
        assert(grown[head] == nodes[head]);
    }
    assert forall|k: int| 0 <= k < last implies #[trigger] moves_to(grown, k) == moves_to(
        nodes,
        k,
    ) by {
        lemma_moves_to_grows(nodes, node, k);
    }
    assert(moves_to(grown, last) == moves_to(nodes, head).push(m)) by {
        assert(grown[last] == node);
        assert(node.parent == head && node.mv == m);
        assert(moves_to(grown, last) == moves_to(grown, head).push(m));
        assert(moves_to(grown, head) == moves_to(nodes, head));
    }
    assert forall|k: int| 1 <= k < grown.len() implies #[trigger] link_ok(grown, k) by {
        if k < last {
            assert(link_ok(nodes, k));
        }
    }
    assert forall|j: int, k: int| 0 <= j <= k < grown.len() implies (#[trigger] grown[j]).depth <= (
    #[trigger] grown[k]).depth by {
        if k == last && j < last {
            assert(nodes[j].depth <= nodes[head].depth + 1);
        } else if k < last {
            assert(nodes[j].depth <= nodes[k].depth);
        }
    }
    assert forall|j: int, k: int| 0 <= j < k < grown.len() implies shortlex_lt(
        #[trigger] moves_to(grown, j),
        #[trigger] moves_to(grown, k),
    ) by {
        assert(moves_to(grown, j) == moves_to(nodes, j));
        if k == last {
            lemma_child_precedes(nodes, start, head, rank, j, m);
        } else {
            assert(moves_to(grown, k) == moves_to(nodes, k));
            assert(shortlex_lt(moves_to(nodes, j), moves_to(nodes, k)));
        }
    }
    assert forall|j: int| 0 <= j < head implies #[trigger] expanded(grown, j, move_count()) by {
        assert(expanded(nodes, j, move_count()));
        lemma_expanded_grows(nodes, node, j, move_count());
    }
    lemma_expanded_grows(nodes, node, head, rank);
    assert forall|mv: Move| #[trigger]
        legal(grown[head].state, mv) && mv.rank() < m.rank() + 1 implies !apply(
        grown[head].state,
        mv,
    ).solved() && reached(grown, apply(grown[head].state, mv), moves_to(grown, head).push(mv)) by {
        assert(mv.indexed());
        assert(legal(nodes[head].state, mv));
        if mv.rank() == m.rank() {
            lemma_rank_one_to_one(mv, m);
            assert(grown[last].state == apply(grown[head].state, mv));
            assert(moves_to(grown, last) == moves_to(grown, head).push(mv));
        }
    }
    assert forall|k: int| 0 <= k < grown.len() implies (#[trigger] grown[k]).depth
        <= grown[head].depth + 1 by {
        if k < last {
            assert(nodes[k].depth <= nodes[head].depth + 1);
        }
    }
    assert forall|k: int| 1 <= k < grown.len() implies (#[trigger] grown[k]).parent <= head && (
    grown[k].parent == head ==> grown[k].mv.rank() < m.rank() + 1) by {
        if k < last {
            assert(nodes[k].parent <= head);
        }
    }
}

} // verus!
