//! The order of enumeration, carried over from moves to sequences of moves.

use vstd::prelude::*;
use crate::state::Move;

verus! {

/// `a` and `b` are as long as each other, and where they first differ the
/// move of `a` has the lower rank.
pub open spec fn comes_before(a: Seq<Move>, b: Seq<Move>) -> bool {
    a.len() == b.len() && exists|i: int|
        0 <= i < a.len() && (#[trigger] a[i]).rank() < b[i].rank() && a.take(i) == b.take(i)
}

/// `a` is `b` or comes before it.
pub open spec fn first_among(a: Seq<Move>, b: Seq<Move>) -> bool {
    a == b || comes_before(a, b)
}

/// `a` is shorter than `b`, or comes before it.
pub open spec fn shortlex_lt(a: Seq<Move>, b: Seq<Move>) -> bool {
    a.len() < b.len() || comes_before(a, b)
}

/// `a` is `b`, is shorter, or comes before it.
pub open spec fn shortlex_le(a: Seq<Move>, b: Seq<Move>) -> bool {
    a == b || shortlex_lt(a, b)
}

/// Two moves of the enumeration with the same rank are the same move.
pub proof fn lemma_rank_one_to_one(x: Move, y: Move)
    requires
        x.indexed(),
        y.indexed(),
        x.rank() == y.rank(),
    ensures
        x == y,
{
}

/// What comes before stays before when each sequence gets one more move.
pub proof fn lemma_before_push(a: Seq<Move>, b: Seq<Move>, x: Move, y: Move)
    requires
        comes_before(a, b),
    ensures
        comes_before(a.push(x), b.push(y)),
{
    let i = choose|i: int|
        0 <= i < a.len() && (#[trigger] a[i]).rank() < b[i].rank() && a.take(i) == b.take(i);
    assert(a.push(x).take(i) =~= a.take(i));
    assert(b.push(y).take(i) =~= b.take(i));
    assert(a.push(x)[i] == a[i]);
    assert(b.push(y)[i] == b[i]);
}

/// After the same moves, the move of lower rank comes before.
pub proof fn lemma_before_last(a: Seq<Move>, x: Move, y: Move)
    requires
        x.rank() < y.rank(),
    ensures
        comes_before(a.push(x), a.push(y)),
{
    let i = a.len() as int;
    assert(a.push(x).take(i) =~= a.push(y).take(i));
    assert(a.push(x)[i] == x);
}

/// After the same moves, what comes before ends in the move of lower rank.
pub proof fn lemma_before_same_start(a: Seq<Move>, x: Move, y: Move)
    requires
        comes_before(a.push(x), a.push(y)),
    ensures
        x.rank() < y.rank(),
{
    let i = choose|i: int|
        0 <= i < a.push(x).len() && (#[trigger] a.push(x)[i]).rank() < a.push(y)[i].rank()
            && a.push(x).take(i) == a.push(y).take(i);
    if i < a.len() {
        assert(a.push(x)[i] == a[i]);
        assert(a.push(y)[i] == a[i]);
    }
}

/// Coming before is transitive.
pub proof fn lemma_before_trans(a: Seq<Move>, b: Seq<Move>, c: Seq<Move>)
    requires
        comes_before(a, b),
        comes_before(b, c),
    ensures
        comes_before(a, c),
{
    let i = choose|i: int|
        0 <= i < a.len() && (#[trigger] a[i]).rank() < b[i].rank() && a.take(i) == b.take(i);
    let j = choose|j: int|
        0 <= j < b.len() && (#[trigger] b[j]).rank() < c[j].rank() && b.take(j) == c.take(j);
    let k = if i <= j {
        i
    } else {
        j
    };
    assert(a.take(k) =~= a.take(i).take(k));
    assert(b.take(k) =~= b.take(i).take(k));
    assert(b.take(k) =~= b.take(j).take(k));
    assert(c.take(k) =~= c.take(j).take(k));
    if i < j {
        assert(b.take(j)[i] == c.take(j)[i]);
    } else if j < i {
        assert(a.take(i)[j] == b.take(i)[j]);
    }
    assert(a[k].rank() < c[k].rank());
}

/// Of two sequences at most one comes before the other.
pub proof fn lemma_before_one_way(a: Seq<Move>, b: Seq<Move>)
    requires
        comes_before(a, b),
    ensures
        !comes_before(b, a),
        a != b,
{
    let i = choose|i: int|
        0 <= i < a.len() && (#[trigger] a[i]).rank() < b[i].rank() && a.take(i) == b.take(i);
    if comes_before(b, a) {
        let j = choose|j: int|
            0 <= j < b.len() && (#[trigger] b[j]).rank() < a[j].rank() && b.take(j) == a.take(j);
        if i < j {
            assert(b.take(j)[i] == a.take(j)[i]);
        } else if j < i {
            assert(a.take(i)[j] == b.take(i)[j]);
        }
    }
}

/// The short-then-enumeration order is transitive, and strict as soon as
/// one of its two steps is.
pub proof fn lemma_shortlex_trans(a: Seq<Move>, b: Seq<Move>, c: Seq<Move>)
    requires
        shortlex_le(a, b),
        shortlex_le(b, c),
    ensures
        shortlex_le(a, c),
        shortlex_lt(a, b) || shortlex_lt(b, c) ==> shortlex_lt(a, c),
{
    if comes_before(a, b) && comes_before(b, c) {
        lemma_before_trans(a, b, c);
    }
}

/// The short-then-enumeration order is kept when both sequences get the
/// same move.
pub proof fn lemma_shortlex_push(a: Seq<Move>, b: Seq<Move>, x: Move)
    requires
        shortlex_le(a, b),
    ensures
        shortlex_le(a.push(x), b.push(x)),
{
    if comes_before(a, b) {
        lemma_before_push(a, b, x, x);
    }
}

} // verus!
