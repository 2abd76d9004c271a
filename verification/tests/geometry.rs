use waiterstray::geometry::{clearance, MAX_TRAY_OFFSET, NUM_BOTTLES, TRAY_SHAPE, TRAY_SHAPE_SIZE};
use waiterstray::state::{is_valid_tray_bottle_position, is_valid_tray_position, BottleState};

#[test]
fn constants_describe_the_tray() {
    assert_eq!(NUM_BOTTLES, 6);
    assert_eq!(MAX_TRAY_OFFSET, 17);
    assert_eq!(TRAY_SHAPE_SIZE, 23);
    assert_eq!(TRAY_SHAPE.len(), 23);
    assert_eq!(
        TRAY_SHAPE,
        [0, 0, 0, 0, 0, 0, 0, 2, 2, 1, 0, 1, 1, 1, 1, 1, 2, 0, 0, 0, 0, 0, 0]
    );
}

#[test]
fn clearance_reads_the_cell_under_the_bottle() {
    // cell = MAX_TRAY_OFFSET + bottle_index - tray_offset
    assert_eq!(clearance(7, 0), Some(0)); // cell 10, the notch
    assert_eq!(clearance(7, 1), Some(1)); // cell 11
    assert_eq!(clearance(7, 5), Some(1)); // cell 15
    assert_eq!(clearance(6, 5), Some(2)); // cell 16
    assert_eq!(clearance(10, 0), Some(2)); // cell 7
    assert_eq!(clearance(9, 0), Some(2)); // cell 8
    assert_eq!(clearance(8, 0), Some(1)); // cell 9
    assert_eq!(clearance(0, 0), Some(0)); // cell 17
    assert_eq!(clearance(0, 5), Some(0)); // cell 22
    assert_eq!(clearance(17, 0), Some(0)); // cell 0
    assert_eq!(clearance(17, 5), Some(0)); // cell 5
}

#[test]
fn clearance_is_none_off_the_profile() {
    assert_eq!(clearance(18, 0), None);
    assert_eq!(clearance(18, 1), Some(0));
    assert_eq!(clearance(0, 6), None);
    assert_eq!(clearance(1, 6), Some(0));
    assert_eq!(clearance(usize::MAX, 0), None);
    assert_eq!(clearance(0, usize::MAX), None);
    assert_eq!(clearance(usize::MAX, usize::MAX), Some(0));
    assert_eq!(clearance(usize::MAX, usize::MAX - 17), Some(0));
    assert_eq!(clearance(usize::MAX, usize::MAX - 18), None);
}

#[test]
fn clearance_matches_the_table_everywhere() {
    for tray_offset in 0..40usize {
        for bottle_index in 0..40usize {
            let cell = MAX_TRAY_OFFSET as i64 + bottle_index as i64 - tray_offset as i64;
            let expected = if 0 <= cell && cell < TRAY_SHAPE_SIZE as i64 {
                Some(TRAY_SHAPE[cell as usize])
            } else {
                None
            };
            assert_eq!(clearance(tray_offset, bottle_index), expected);
        }
    }
}

#[test]
fn bottle_position_follows_the_clearance() {
    // height 0: everything fits
    assert!(is_valid_tray_bottle_position(7, 0, BottleState::Top));
    assert!(is_valid_tray_bottle_position(7, 0, BottleState::Middle));
    assert!(is_valid_tray_bottle_position(7, 0, BottleState::Bottom));
    // height 1: not the bottom
    assert!(is_valid_tray_bottle_position(7, 1, BottleState::Top));
    assert!(is_valid_tray_bottle_position(7, 1, BottleState::Middle));
    assert!(!is_valid_tray_bottle_position(7, 1, BottleState::Bottom));
    // height 2: only the top
    assert!(is_valid_tray_bottle_position(6, 5, BottleState::Top));
    assert!(!is_valid_tray_bottle_position(6, 5, BottleState::Middle));
    assert!(!is_valid_tray_bottle_position(6, 5, BottleState::Bottom));
}

#[test]
fn bottle_position_off_the_profile_is_not_valid() {
    assert!(!is_valid_tray_bottle_position(18, 0, BottleState::Top));
    assert!(!is_valid_tray_bottle_position(0, 6, BottleState::Top));
    assert!(!is_valid_tray_bottle_position(usize::MAX, 0, BottleState::Top));
}

#[test]
fn tray_position_asks_every_bottle() {
    let middle = [BottleState::Middle; 6];
    assert!(is_valid_tray_position(7, &middle));
    assert!(is_valid_tray_position(8, &middle));
    // bottle 5 would stand over a cell of height 2
    assert!(!is_valid_tray_position(6, &middle));
    let top = [BottleState::Top; 6];
    for tray_offset in 0..=17usize {
        assert!(is_valid_tray_position(tray_offset, &top));
    }
    assert!(!is_valid_tray_position(18, &top));
    assert!(!is_valid_tray_position(usize::MAX, &top));
    let bottom = [BottleState::Bottom; 6];
    assert!(is_valid_tray_position(0, &bottom));
    assert!(is_valid_tray_position(17, &bottom));
    assert!(!is_valid_tray_position(1, &bottom));
}
