use waiterstray::state::{
    attempt, bottle_down, bottle_up, is_valid_tray_position, reverse, BottleState,
    InvariantViolation, MarbleState, Move, NextStatesIter, State,
};

fn start() -> State {
    State {
        bottles: [BottleState::Middle; 6],
        marbles: [
            MarbleState::TopLeft,
            MarbleState::BottomRight,
            MarbleState::BottomRight,
            MarbleState::BottomRight,
            MarbleState::BottomRight,
            MarbleState::TopLeft,
        ],
        tray_offset: 7,
    }
}

fn every_move() -> Vec<Move> {
    let mut all = vec![Move::TrayLeft, Move::TrayRight];
    for i in 0..6 {
        all.push(Move::MarbleLeft(i));
    }
    for i in 0..6 {
        all.push(Move::MarbleRight(i));
    }
    for i in 0..6 {
        all.push(Move::BottleUp(i));
    }
    for i in 0..6 {
        all.push(Move::BottleDown(i));
    }
    all
}

fn successors(state: &State) -> Vec<(Move, State)> {
    let mut found = Vec::new();
    let mut it = NextStatesIter::new(state);
    while let Ok(Some(pair)) = it.next() {
        found.push(pair);
    }
    found
}

#[test]
fn bottle_steps() {
    assert_eq!(bottle_up(BottleState::Bottom), BottleState::Middle);
    assert_eq!(bottle_up(BottleState::Middle), BottleState::Top);
    assert_eq!(bottle_down(BottleState::Top), BottleState::Middle);
    assert_eq!(bottle_down(BottleState::Middle), BottleState::Bottom);
}

#[test]
fn reverse_pairs_the_moves() {
    assert_eq!(reverse(Move::TrayLeft), Move::TrayRight);
    assert_eq!(reverse(Move::TrayRight), Move::TrayLeft);
    assert_eq!(reverse(Move::MarbleLeft(3)), Move::MarbleRight(3));
    assert_eq!(reverse(Move::MarbleRight(4)), Move::MarbleLeft(4));
    assert_eq!(reverse(Move::BottleUp(0)), Move::BottleDown(0));
    assert_eq!(reverse(Move::BottleDown(5)), Move::BottleUp(5));
    assert_eq!(reverse(Move::Invalid), Move::Invalid);
}

#[test]
fn reverse_twice_is_the_move() {
    for m in every_move() {
        assert_eq!(reverse(reverse(m)), m);
        assert_ne!(reverse(m), m);
    }
}

#[test]
fn is_solved_at_either_end_only() {
    let mut s = start();
    assert!(!s.is_solved());
    s.tray_offset = 0;
    assert!(s.is_solved());
    s.tray_offset = 17;
    assert!(s.is_solved());
    s.tray_offset = 1;
    assert!(!s.is_solved());
    s.tray_offset = 16;
    assert!(!s.is_solved());
    s.tray_offset = 18;
    assert!(!s.is_solved());
}

#[test]
fn coherent_tells_marbles_out_of_place() {
    let mut s = start();
    assert!(s.is_coherent());
    s.marbles[0] = MarbleState::BottomLeft;
    assert!(!s.is_coherent());
    s.bottles[0] = BottleState::Bottom;
    assert!(s.is_coherent());
    s.marbles[0] = MarbleState::TopLeft;
    assert!(!s.is_coherent());
    s.marbles[0] = MarbleState::BottomRight;
    assert!(s.is_coherent());
    s.bottles[5] = BottleState::Top;
    assert!(!s.is_coherent());
}

#[test]
fn states_compare_field_by_field() {
    let s = start();
    assert_eq!(s, start());
    let mut t = start();
    t.tray_offset = 8;
    assert_ne!(s, t);
    let mut t = start();
    t.bottles[5] = BottleState::Top;
    assert_ne!(s, t);
    let mut t = start();
    t.marbles[3] = MarbleState::BottomLeft;
    assert_ne!(s, t);
}

#[test]
fn code_of_the_start() {
    // 7, then for each groove 3 * bottle + marble, in base 9
    assert_eq!(start().code(), 3934137);
    let mut t = start();
    t.marbles[5] = MarbleState::BottomRight;
    assert_eq!(t.code(), 3934139);
    t.tray_offset = 0;
    t.bottles = [BottleState::Top; 6];
    t.marbles = [MarbleState::TopLeft; 6];
    assert_eq!(t.code(), 0);
    t.tray_offset = 1;
    assert_eq!(t.code(), 531441);
}

#[test]
fn next_states_of_the_start() {
    let s = start();
    let found = successors(&s);
    assert_eq!(found.len(), 3);

    let mut right = s;
    right.tray_offset = 8;
    assert_eq!(found[0], (Move::TrayRight, right));

    let mut up = s;
    up.bottles[1] = BottleState::Top;
    assert_eq!(found[1], (Move::BottleUp(1), up));

    let mut down = s;
    down.bottles[0] = BottleState::Bottom;
    down.marbles[0] = MarbleState::BottomLeft;
    assert_eq!(found[2], (Move::BottleDown(0), down));
}

#[test]
fn next_states_agree_with_attempt() {
    let s = start();
    let mut expected = Vec::new();
    for m in every_move() {
        if let Some(t) = attempt(&s, m) {
            expected.push((m, t));
        }
    }
    assert_eq!(successors(&s), expected);
}

#[test]
fn next_is_none_for_good_once_it_is_none() {
    let s = start();
    let mut it = NextStatesIter::new(&s);
    while let Ok(Some(_)) = it.next() {}
    assert_eq!(it.next(), Ok(None));
    assert_eq!(it.next(), Ok(None));
}

#[test]
fn attempt_refuses_invalid_and_indices_out_of_range() {
    let s = start();
    assert_eq!(attempt(&s, Move::Invalid), None);
    assert_eq!(attempt(&s, Move::MarbleLeft(6)), None);
    assert_eq!(attempt(&s, Move::MarbleRight(6)), None);
    assert_eq!(attempt(&s, Move::BottleUp(6)), None);
    assert_eq!(attempt(&s, Move::BottleDown(usize::MAX)), None);
}

#[test]
fn tray_stays_on_the_profile() {
    let mut s = start();
    s.bottles = [BottleState::Top; 6];
    s.marbles = [MarbleState::BottomRight; 6];
    s.tray_offset = 0;
    assert_eq!(attempt(&s, Move::TrayLeft), None);
    let mut t = s;
    t.tray_offset = 1;
    assert_eq!(attempt(&s, Move::TrayRight), Some(t));
    s.tray_offset = 17;
    assert_eq!(attempt(&s, Move::TrayRight), None);
    t.tray_offset = 16;
    assert_eq!(attempt(&s, Move::TrayLeft), Some(t));
    s.tray_offset = usize::MAX;
    assert_eq!(attempt(&s, Move::TrayRight), None);
    assert_eq!(attempt(&s, Move::TrayLeft), None);
}

#[test]
fn marble_left_needs_its_bottle_at_the_bottom() {
    let mut s = start();
    assert_eq!(attempt(&s, Move::MarbleLeft(1)), None);
    s.bottles[1] = BottleState::Bottom;
    let mut t = s;
    t.marbles[1] = MarbleState::BottomLeft;
    assert_eq!(attempt(&s, Move::MarbleLeft(1)), Some(t));
    // a marble at the top left does not go left
    s.bottles[0] = BottleState::Bottom;
    assert_eq!(attempt(&s, Move::MarbleLeft(0)), None);
}

#[test]
fn marble_right_needs_the_next_bottle_off_the_bottom() {
    let mut s = start();
    s.bottles[1] = BottleState::Bottom;
    s.marbles[1] = MarbleState::BottomLeft;
    let mut t = s;
    t.marbles[1] = MarbleState::BottomRight;
    assert_eq!(attempt(&s, Move::MarbleRight(1)), Some(t));
    s.bottles[2] = BottleState::Bottom;
    assert_eq!(attempt(&s, Move::MarbleRight(1)), None);
    // the last groove has no bottle to its right
    let mut s = start();
    s.bottles[5] = BottleState::Bottom;
    s.marbles[5] = MarbleState::BottomLeft;
    let mut t = s;
    t.marbles[5] = MarbleState::BottomRight;
    assert_eq!(attempt(&s, Move::MarbleRight(5)), Some(t));
}

#[test]
fn bottle_up_by_bottle_and_marble() {
    let mut s = start();
    // in the middle with the marble at the top left: held
    assert_eq!(attempt(&s, Move::BottleUp(0)), None);
    // wedged by the marble to the left
    assert_eq!(attempt(&s, Move::BottleUp(2)), None);
    // at the bottom with the marble at the bottom left: both go up
    s.bottles[0] = BottleState::Bottom;
    s.marbles[0] = MarbleState::BottomLeft;
    assert_eq!(attempt(&s, Move::BottleUp(0)), Some(start()));
    // marble at the bottom right: the bottle alone goes up, one step
    s.marbles[0] = MarbleState::BottomRight;
    let mut t = s;
    t.bottles[0] = BottleState::Middle;
    assert_eq!(attempt(&s, Move::BottleUp(0)), Some(t));
    let mut u = t;
    u.bottles[0] = BottleState::Top;
    assert_eq!(attempt(&t, Move::BottleUp(0)), Some(u));
    // already at the top
    assert_eq!(attempt(&u, Move::BottleUp(0)), None);
}

#[test]
fn bottle_down_by_tray_and_marble() {
    let s = start();
    // over the notch: down, and the marble drops to the bottom left
    let mut t = s;
    t.bottles[0] = BottleState::Bottom;
    t.marbles[0] = MarbleState::BottomLeft;
    assert_eq!(attempt(&s, Move::BottleDown(0)), Some(t));
    // at the bottom already
    assert_eq!(attempt(&t, Move::BottleDown(0)), None);
    // over a cell of height 1 the bottom is out of reach
    assert_eq!(attempt(&s, Move::BottleDown(1)), None);
    // wedged by the marble to the left
    assert_eq!(attempt(&s, Move::BottleDown(2)), None);
    // from the top to the middle, the marble at the bottom right stays
    let mut s = start();
    s.bottles[1] = BottleState::Top;
    assert_eq!(attempt(&s, Move::BottleDown(1)), Some(start()));
}

#[test]
fn each_move_from_the_start_is_undone_by_its_reverse() {
    let s = start();
    for (m, t) in successors(&s) {
        assert_eq!(attempt(&t, reverse(m)), Some(s));
    }
}

#[test]
fn moves_are_undone_two_steps_from_the_start() {
    let s = start();
    for (_, t) in successors(&s) {
        for (m, u) in successors(&t) {
            assert_eq!(attempt(&u, reverse(m)), Some(t));
        }
    }
}

#[test]
fn marble_left_is_not_undone_under_a_lowered_bottle() {
    let mut s = start();
    s.tray_offset = 0;
    s.bottles = [BottleState::Bottom; 6];
    s.marbles = [MarbleState::BottomRight; 6];
    let mut t = s;
    t.marbles[0] = MarbleState::BottomLeft;
    assert_eq!(attempt(&s, Move::MarbleLeft(0)), Some(t));
    assert_eq!(attempt(&t, reverse(Move::MarbleLeft(0))), None);
}

#[test]
fn next_states_of_a_valid_state_are_valid() {
    let s = start();
    assert!(is_valid_tray_position(s.tray_offset, &s.bottles));
    for (_, t) in successors(&s) {
        assert!(is_valid_tray_position(t.tray_offset, &t.bottles));
        assert!(t.tray_offset <= 17);
        assert!(t.is_coherent());
        for (_, u) in successors(&t) {
            assert!(is_valid_tray_position(u.tray_offset, &u.bottles));
            assert!(u.tray_offset <= 17);
            assert!(u.is_coherent());
        }
    }
}

#[test]
fn fault_is_a_free_bottle_out_of_place() {
    let mut s = start();
    for i in 0..6 {
        assert!(!s.is_fault_at(i));
    }
    // in the middle over a marble at the bottom left
    s.marbles[0] = MarbleState::BottomLeft;
    assert!(s.is_fault_at(0));
    // at the bottom beside a marble at the top left
    s.marbles[0] = MarbleState::TopLeft;
    s.bottles[0] = BottleState::Bottom;
    assert!(s.is_fault_at(0));
    // at the top nothing is asked of the marble
    s.bottles[0] = BottleState::Top;
    assert!(!s.is_fault_at(0));
    s.marbles[0] = MarbleState::BottomLeft;
    assert!(!s.is_fault_at(0));
    // a wedged bottle is not tried
    let mut s = start();
    s.marbles[2] = MarbleState::BottomLeft;
    assert!(!s.is_fault_at(2));
    s.marbles[1] = MarbleState::TopLeft;
    assert!(s.is_fault_at(2));
}

#[test]
fn next_reports_the_bottle_at_fault_where_the_enumeration_meets_it() {
    let mut s = start();
    s.marbles[0] = MarbleState::BottomLeft;
    let mut it = NextStatesIter::new(&s);

    let mut right = s;
    right.tray_offset = 8;
    assert_eq!(it.next(), Ok(Some((Move::TrayRight, right))));

    let mut marble = s;
    marble.marbles[0] = MarbleState::BottomRight;
    assert_eq!(it.next(), Ok(Some((Move::MarbleRight(0), marble))));

    assert_eq!(it.next(), Err(InvariantViolation { bottle: 0 }));

    // the enumeration goes on behind the bottle at fault
    let mut up = s;
    up.bottles[1] = BottleState::Top;
    assert_eq!(it.next(), Ok(Some((Move::BottleUp(1), up))));
}

#[test]
fn next_reports_no_fault_from_the_start() {
    let s = start();
    let mut it = NextStatesIter::new(&s);
    let mut count = 0;
    loop {
        match it.next() {
            Ok(Some(_)) => count += 1,
            Ok(None) => break,
            Err(v) => panic!("bottle {} at fault", v.bottle),
        }
    }
    assert_eq!(count, 3);
}
