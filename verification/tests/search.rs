use std::collections::HashSet;
use waiterstray::designated::{designated_start, solve_designated};
use waiterstray::search::{solve, SearchError};
use waiterstray::state::{
    attempt, is_valid_tray_position, reverse, BottleState, MarbleState, Move, NextStatesIter,
    State,
};

fn designated_start_by_hand() -> State {
    State {
        bottles: [BottleState::Middle; 6],
        marbles: [
            MarbleState::TopLeft,
            MarbleState::BottomRight,
            MarbleState::BottomRight,
            MarbleState::BottomRight,
            MarbleState::BottomRight,
            MarbleState::TopLeft,
        ],
        tray_offset: 7,
    }
}

fn stuck_start() -> State {
    // Bottle 1 stands at the bottom in the notch and is wedged by marble 0,
    // which can only leave once bottle 0 is at the bottom, where the tray
    // does not let it go.
    State {
        bottles: [
            BottleState::Middle,
            BottleState::Bottom,
            BottleState::Top,
            BottleState::Top,
            BottleState::Top,
            BottleState::Top,
        ],
        marbles: [MarbleState::BottomRight; 6],
        tray_offset: 8,
    }
}

/// Fewest moves, at least one, from `start` to a solved state, found level
/// by level with a set of the states met.
fn fewest_moves(start: &State) -> Option<usize> {
    let mut seen: HashSet<State> = HashSet::new();
    seen.insert(*start);
    let mut level = vec![*start];
    let mut depth = 0;
    while !level.is_empty() {
        depth += 1;
        let mut next_level = Vec::new();
        for s in &level {
            let mut it = NextStatesIter::new(s);
            while let Ok(Some((_, t))) = it.next() {
                if t.is_solved() {
                    return Some(depth);
                }
                if seen.insert(t) {
                    next_level.push(t);
                }
            }
        }
        level = next_level;
    }
    None
}

#[test]
fn designated_start_is_solved_in_365_moves() {
    let start = designated_start_by_hand();
    let sol = solve(&start).unwrap();
    assert_eq!(sol.moves.len(), 365);
    assert_eq!(sol.states.len(), 366);
}

#[test]
fn concrete_scenario() {
    let start = designated_start_by_hand();
    let sol = solve(&start).unwrap();
    let last = sol.states[sol.states.len() - 1];
    assert!(last.tray_offset == 0 || last.tray_offset == 17);
    assert!(last.is_solved());
    assert_eq!(sol.states[0], start);
    assert_eq!(
        sol.states[0],
        State {
            bottles: [
                BottleState::Middle,
                BottleState::Middle,
                BottleState::Middle,
                BottleState::Middle,
                BottleState::Middle,
                BottleState::Middle
            ],
            marbles: [
                MarbleState::TopLeft,
                MarbleState::BottomRight,
                MarbleState::BottomRight,
                MarbleState::BottomRight,
                MarbleState::BottomRight,
                MarbleState::TopLeft
            ],
            tray_offset: 7,
        }
    );
}

#[test]
fn solution_ends_with_the_tray_out_on_the_left() {
    let sol = solve(&designated_start_by_hand()).unwrap();
    let last = sol.states[sol.states.len() - 1];
    assert_eq!(last.tray_offset, 0);
    assert_eq!(last.bottles, [BottleState::Top; 6]);
    assert_eq!(last.marbles, [MarbleState::BottomRight; 6]);
}

#[test]
fn solution_begins_and_ends_with_the_expected_moves() {
    let sol = solve(&designated_start_by_hand()).unwrap();
    assert_eq!(
        sol.moves[..6],
        [
            Move::TrayRight,
            Move::BottleDown(1),
            Move::MarbleLeft(1),
            Move::BottleUp(1),
            Move::TrayLeft,
            Move::BottleDown(0)
        ]
    );
    assert_eq!(sol.moves[362..], [Move::BottleUp(0), Move::TrayLeft, Move::TrayLeft]);
}

#[test]
fn solution_is_a_run_of_allowed_moves() {
    let start = designated_start_by_hand();
    let sol = solve(&start).unwrap();
    assert_eq!(sol.states.len(), sol.moves.len() + 1);
    for i in 0..sol.moves.len() {
        assert_ne!(sol.moves[i], Move::Invalid);
        assert_eq!(attempt(&sol.states[i], sol.moves[i]), Some(sol.states[i + 1]));
    }
}

#[test]
fn solution_passes_no_solved_state_before_the_last() {
    let sol = solve(&designated_start_by_hand()).unwrap();
    for i in 0..sol.states.len() - 1 {
        assert!(!sol.states[i].is_solved());
    }
}

#[test]
fn solution_passes_no_state_twice() {
    let sol = solve(&designated_start_by_hand()).unwrap();
    let distinct: HashSet<State> = sol.states.iter().copied().collect();
    assert_eq!(distinct.len(), sol.states.len());
}

#[test]
fn solution_passes_valid_coherent_states() {
    let sol = solve(&designated_start_by_hand()).unwrap();
    for s in &sol.states {
        assert!(is_valid_tray_position(s.tray_offset, &s.bottles));
        assert!(s.is_coherent());
        assert!(s.tray_offset <= 17);
    }
}

#[test]
fn solution_can_be_walked_back_by_reversed_moves() {
    let sol = solve(&designated_start_by_hand()).unwrap();
    let mut cur = sol.states[sol.states.len() - 1];
    for i in (0..sol.moves.len()).rev() {
        cur = attempt(&cur, reverse(sol.moves[i])).unwrap();
        assert_eq!(cur, sol.states[i]);
    }
    assert_eq!(cur, designated_start_by_hand());
}

#[test]
fn no_shorter_way_out_exists() {
    let start = designated_start_by_hand();
    let sol = solve(&start).unwrap();
    assert_eq!(fewest_moves(&start), Some(sol.moves.len()));
}

#[test]
fn no_shorter_way_out_exists_from_states_near_the_end() {
    let sol = solve(&designated_start_by_hand()).unwrap();
    let n = sol.states.len();
    for back in 2..40 {
        let from = sol.states[n - 1 - back];
        let rest = solve(&from).unwrap();
        assert_eq!(rest.moves.len(), back);
        assert_eq!(fewest_moves(&from), Some(back));
        assert_eq!(rest.states[0], from);
    }
}

#[test]
fn searching_twice_finds_the_same_way() {
    let start = designated_start_by_hand();
    let first = solve(&start).unwrap();
    let second = solve(&start).unwrap();
    assert_eq!(first.moves, second.moves);
    assert_eq!(first.states, second.states);
}

#[test]
fn first_of_the_shortest_ways_is_found() {
    // With every bottle at the top the tray is free: from offset 2 both
    // ends are far, from offset 1 the left end is one move away.
    let mut s = designated_start_by_hand();
    s.bottles = [BottleState::Top; 6];
    s.marbles = [MarbleState::BottomRight; 6];
    s.tray_offset = 1;
    let sol = solve(&s).unwrap();
    assert_eq!(sol.moves, vec![Move::TrayLeft]);
    s.tray_offset = 16;
    let sol = solve(&s).unwrap();
    assert_eq!(sol.moves, vec![Move::TrayRight]);
    s.tray_offset = 2;
    let sol = solve(&s).unwrap();
    assert_eq!(sol.moves, vec![Move::TrayLeft, Move::TrayLeft]);
    assert_eq!(sol.states.len(), 3);
    assert_eq!(sol.states[1].tray_offset, 1);
    assert_eq!(sol.states[2].tray_offset, 0);
}

#[test]
fn a_solved_start_still_takes_a_move() {
    let mut s = designated_start_by_hand();
    s.bottles = [BottleState::Top; 6];
    s.marbles = [MarbleState::BottomRight; 6];
    s.tray_offset = 0;
    assert!(s.is_solved());
    let sol = solve(&s).unwrap();
    // the tray cannot go left, going right leaves the end, and lowering
    // bottle 0 is the first move that keeps the tray where it is
    assert_eq!(sol.moves, vec![Move::BottleDown(0)]);
    let mut t = s;
    t.bottles[0] = BottleState::Middle;
    assert_eq!(sol.states, vec![s, t]);
}

#[test]
fn stuck_start_has_no_solution() {
    let start = stuck_start();
    assert!(start.is_coherent());
    assert!(is_valid_tray_position(start.tray_offset, &start.bottles));
    assert_eq!(solve(&start).err(), Some(SearchError::NoSolution));
    assert_eq!(fewest_moves(&start), None);
}

#[test]
fn start_beyond_the_profile_has_no_solution() {
    let mut s = designated_start_by_hand();
    s.tray_offset = 40;
    assert_eq!(solve(&s).err(), Some(SearchError::NoSolution));
    s.tray_offset = usize::MAX;
    assert_eq!(solve(&s).err(), Some(SearchError::NoSolution));
}

#[test]
fn start_with_a_bottle_at_fault_is_an_invariant_violation() {
    let mut s = designated_start_by_hand();
    s.marbles[0] = MarbleState::BottomLeft;
    assert!(s.is_fault_at(0));
    assert_eq!(solve(&s).err(), Some(SearchError::InvariantViolation));
    let mut s = designated_start_by_hand();
    s.bottles[0] = BottleState::Bottom;
    assert!(s.is_fault_at(0));
    assert_eq!(solve(&s).err(), Some(SearchError::InvariantViolation));
}

#[test]
fn fault_met_later_in_the_search_is_an_invariant_violation() {
    // Nothing is at fault in the start, but bottle 5 at the top with its
    // marble at the top left comes down over a marble at the bottom left.
    let mut s = designated_start_by_hand();
    s.bottles[5] = BottleState::Top;
    for i in 0..6 {
        assert!(!s.is_fault_at(i));
    }
    assert_eq!(solve(&s).err(), Some(SearchError::InvariantViolation));
}

#[test]
fn start_that_is_not_coherent_and_stuck_has_no_solution() {
    let s = State {
        bottles: [
            BottleState::Middle,
            BottleState::Bottom,
            BottleState::Middle,
            BottleState::Middle,
            BottleState::Middle,
            BottleState::Top,
        ],
        marbles: [
            MarbleState::BottomRight,
            MarbleState::BottomRight,
            MarbleState::BottomRight,
            MarbleState::BottomRight,
            MarbleState::BottomRight,
            MarbleState::TopLeft,
        ],
        tray_offset: 8,
    };
    assert!(!s.is_coherent());
    assert!(is_valid_tray_position(s.tray_offset, &s.bottles));
    assert_eq!(solve(&s).err(), Some(SearchError::NoSolution));
}

#[test]
fn start_that_is_not_coherent_is_solved_where_no_fault_is_met() {
    let s = State {
        bottles: [
            BottleState::Top,
            BottleState::Middle,
            BottleState::Middle,
            BottleState::Middle,
            BottleState::Middle,
            BottleState::Middle,
        ],
        marbles: [
            MarbleState::TopLeft,
            MarbleState::BottomRight,
            MarbleState::BottomRight,
            MarbleState::BottomRight,
            MarbleState::BottomRight,
            MarbleState::BottomRight,
        ],
        tray_offset: 1,
    };
    assert!(!s.is_coherent());
    let sol = solve(&s).unwrap();
    assert_eq!(sol.moves, vec![Move::TrayLeft]);
    assert_eq!(sol.explored, 1);
}

#[test]
fn solution_before_the_fault_is_found_and_fault_before_the_solution_is_reported() {
    // Bottle 0 is at fault. One move from the end the tray is out before
    // the bottle is tried; two moves from the end the bottle is tried first.
    let mut s = State {
        bottles: [
            BottleState::Middle,
            BottleState::Top,
            BottleState::Top,
            BottleState::Top,
            BottleState::Top,
            BottleState::Top,
        ],
        marbles: [
            MarbleState::BottomLeft,
            MarbleState::BottomRight,
            MarbleState::BottomRight,
            MarbleState::BottomRight,
            MarbleState::BottomRight,
            MarbleState::BottomRight,
        ],
        tray_offset: 1,
    };
    assert!(s.is_fault_at(0));
    let sol = solve(&s).unwrap();
    assert_eq!(sol.moves, vec![Move::TrayLeft]);
    s.tray_offset = 2;
    assert_eq!(solve(&s).err(), Some(SearchError::InvariantViolation));
}

#[test]
fn wedged_bottle_out_of_place_is_no_fault() {
    let s = State {
        bottles: [
            BottleState::Top,
            BottleState::Middle,
            BottleState::Top,
            BottleState::Top,
            BottleState::Top,
            BottleState::Top,
        ],
        marbles: [
            MarbleState::BottomRight,
            MarbleState::BottomLeft,
            MarbleState::BottomRight,
            MarbleState::BottomRight,
            MarbleState::BottomRight,
            MarbleState::BottomRight,
        ],
        tray_offset: 2,
    };
    assert!(!s.is_coherent());
    let sol = solve(&s).unwrap();
    assert_eq!(sol.moves, vec![Move::TrayLeft, Move::TrayLeft]);
    assert_eq!(sol.explored, 2);
}

#[test]
fn explored_counts_the_states_whose_moves_were_tried() {
    let sol = solve(&designated_start_by_hand()).unwrap();
    assert_eq!(sol.explored, 3232);
    let mut s = designated_start_by_hand();
    s.bottles = [BottleState::Top; 6];
    s.marbles = [MarbleState::BottomRight; 6];
    s.tray_offset = 0;
    assert_eq!(solve(&s).unwrap().explored, 1);
    s.tray_offset = 1;
    assert_eq!(solve(&s).unwrap().explored, 1);
    s.tray_offset = 2;
    assert_eq!(solve(&s).unwrap().explored, 2);
}

#[test]
fn designated_start_is_the_start_of_the_puzzle() {
    assert_eq!(designated_start(), designated_start_by_hand());
    assert!(designated_start().is_coherent());
    assert!(is_valid_tray_position(7, &designated_start().bottles));
}

#[test]
fn search_from_the_designated_start_ends_with_the_answer() {
    let sol = solve_designated();
    let again = solve(&designated_start()).unwrap();
    assert_eq!(sol.moves.len(), 365);
    assert_eq!(sol.moves, again.moves);
    assert_eq!(sol.states, again.states);
    assert_eq!(sol.explored, 3232);
    assert_eq!(sol.states[0], designated_start());
    assert!(sol.states[365].is_solved());
}
