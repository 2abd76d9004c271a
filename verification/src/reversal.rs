//! Undoing a move: when the inverse of a move leads back to where the move
//! started.

use vstd::prelude::*;
use crate::geometry::NUM_BOTTLES;
use crate::state::{
    apply, bottle_position_valid, groove_coherent, inverse, legal, step, BottleState, Move, State,
};

verus! {

/// Taking the inverse twice gives the move back.
pub proof fn lemma_inverse_involution(m: Move)
    ensures
        inverse(inverse(m)) == m,
{
}

/// What `s` must satisfy, beyond allowing `m`, for the inverse of `m` to
/// lead back to `s`:
/// - for a tray move, the bottles clear the tray where it stands;
/// - for a marble going left, the place it leaves, under the bottle to the
///   right, is still free for it;
/// - for a marble going right, or a bottle going down, the bottle and the
///   marble of its groove go together;
/// - for a bottle going up, the bottle clears the tray where it stands.
pub open spec fn undoable(s: State, m: Move) -> bool {
    match m {
        Move::TrayLeft | Move::TrayRight => s.valid(),
        Move::MarbleLeft(i) => i + 1 == NUM_BOTTLES || s.bottles[i + 1] != BottleState::Bottom,
        Move::MarbleRight(i) | Move::BottleDown(i) => groove_coherent(
            s.bottles[i as int],
            s.marbles[i as int],
        ),
        Move::BottleUp(i) => bottle_position_valid(
            s.tray_offset as int,
            i as int,
            s.bottles[i as int],
        ),
        Move::Invalid => true,
    }
}

/// After a move that `s` allows, the inverse move is allowed and leads back
/// to `s` exactly when `s` is undoable for that move.
pub proof fn lemma_inverse_undoes(s: State, m: Move)
    requires
        legal(s, m),
    ensures
        step(apply(s, m), inverse(m)) == Some(s) <==> undoable(s, m),
{
    let t = apply(s, m);
    let back = apply(t, inverse(m));
    match m {
        Move::TrayLeft => {
            crate::state::lemma_valid_offset_in_range(s.tray_offset - 1, s.bottles@);
        },
        Move::TrayRight => {
            crate::state::lemma_valid_offset_in_range(s.tray_offset + 1, s.bottles@);
        },
        Move::MarbleLeft(i) => {
            assert(back.marbles =~= s.marbles);
        },
        Move::MarbleRight(i) => {
            assert(back.marbles =~= s.marbles);
        },
        Move::BottleUp(i) => {
            assert(back.bottles =~= s.bottles);
            assert(back.marbles =~= s.marbles);
        },
        Move::BottleDown(i) => {
            if undoable(s, m) {
                assert(back.bottles =~= s.bottles);
                assert(back.marbles =~= s.marbles);
            } else if legal(t, inverse(m)) {
                assert(back.marbles[i as int] != s.marbles[i as int]);
            }
        },
        Move::Invalid => {},
    }
}

/// In a state that is valid, coherent and settled, every allowed move can be
/// undone by its inverse.
pub proof fn lemma_moves_undone(s: State, m: Move)
    requires
        s.valid(),
        s.coherent(),
        s.settled(),
        legal(s, m),
    ensures
        step(apply(s, m), inverse(m)) == Some(s),
{
    match m {
        Move::MarbleLeft(i) => {
            if i + 1 < NUM_BOTTLES {
                assert(s.marbles[i as int] == crate::state::MarbleState::BottomRight);
            }
        },
        Move::MarbleRight(i) | Move::BottleDown(i) => {
            assert(groove_coherent(s.bottles[i as int], s.marbles[i as int]));
        },
        Move::BottleUp(i) => {
            assert(bottle_position_valid(s.tray_offset as int, i as int, s.bottles@[i as int]));
        },
        _ => {},
    }
    assert(undoable(s, m));
    lemma_inverse_undoes(s, m);
}

} // verus!
