//! The profile of the tray and the headroom it leaves under each bottle.

use vstd::prelude::*;

verus! {

/// Number of bottles, and of grooves.
pub const NUM_BOTTLES: usize = 6;

/// Largest lateral offset of the tray; at this offset, as at offset 0, the
/// tray can be taken out.
pub const MAX_TRAY_OFFSET: usize = 17;

/// Number of cells of the tray profile.
pub const TRAY_SHAPE_SIZE: usize = MAX_TRAY_OFFSET + NUM_BOTTLES;

// The tray has the following shape:
//   __       _
//     _ _____
//      _
pub const TRAY_SHAPE: [usize; TRAY_SHAPE_SIZE] = [
    0, 0, 0, 0, 0, 0, 0, 2, 2, 1, 0, 1, 1, 1, 1, 1, 2, 0, 0, 0, 0, 0, 0,
];

/// Whether bottle slot `bottle_index` lies over a cell of the profile when
/// the tray is at `tray_offset`.
pub open spec fn over_profile(tray_offset: int, bottle_index: int) -> bool {
    0 <= MAX_TRAY_OFFSET + bottle_index - tray_offset < TRAY_SHAPE_SIZE
}

/// Height of the profile under bottle slot `bottle_index` with the tray at
/// `tray_offset`.
pub open spec fn spec_clearance(tray_offset: int, bottle_index: int) -> int
    recommends
        over_profile(tray_offset, bottle_index),
{
    TRAY_SHAPE[MAX_TRAY_OFFSET + bottle_index - tray_offset] as int
}

/// Looks up the profile under a bottle slot; `None` where the slot is not
/// over the profile at all.
pub fn clearance(tray_offset: usize, bottle_index: usize) -> (height: Option<usize>)
    ensures
        height.is_some() <==> over_profile(tray_offset as int, bottle_index as int),
        height.is_some() ==> height.unwrap() == spec_clearance(
            tray_offset as int,
            bottle_index as int,
        ),
        height.is_some() ==> height.unwrap() <= 2,
{
    if tray_offset >= bottle_index {
        let behind: usize = tray_offset - bottle_index;
        if behind > MAX_TRAY_OFFSET {
            None
        } else {
            Some(TRAY_SHAPE[MAX_TRAY_OFFSET - behind])
        }
    } else {
        let ahead: usize = bottle_index - tray_offset;
        if ahead >= NUM_BOTTLES {
            None
        } else {
            Some(TRAY_SHAPE[MAX_TRAY_OFFSET + ahead])
        }
    }
}

} // verus!
