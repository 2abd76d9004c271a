//! The designated start of the puzzle, and a way out of it.

use vstd::prelude::*;
use crate::run::{is_answer, is_run, reaches, solves};
use crate::search::{solve, Solution};
use crate::state::BottleState::{Bottom, Middle, Top};
use crate::state::MarbleState::{BottomLeft, BottomRight, TopLeft};
use crate::state::Move::{BottleDown, BottleUp, MarbleLeft, MarbleRight, TrayLeft, TrayRight};
use crate::state::{apply, legal, step, Move, State};

verus! {

/// Number of moves of the way out that is written down here.
pub open spec fn way_out_len() -> nat {
    365
}

/// The state in which the puzzle is handed over: every bottle in the
/// middle, the tray at offset 7.
pub open spec fn designated() -> State {
    State {
        bottles: [Middle, Middle, Middle, Middle, Middle, Middle],
        marbles: [TopLeft, BottomRight, BottomRight, BottomRight, BottomRight, TopLeft],
        tray_offset: 7,
    }
}

/// Builds the designated start.
pub fn designated_start() -> (s: State)
    ensures
        s == designated(),
{
    let s = State {
        bottles: [Middle, Middle, Middle, Middle, Middle, Middle],
        marbles: [TopLeft, BottomRight, BottomRight, BottomRight, BottomRight, TopLeft],
        tray_offset: 7,
    };
    assert(s.bottles =~= designated().bottles);
    assert(s.marbles =~= designated().marbles);
    s
}

/// The states that the way out passes, one for every stretch of moves: the
/// first is the designated start, the last has the tray out.
spec fn mark(j: int) -> State {
    if j == 0 {
        State {
            bottles: [Middle, Middle, Middle, Middle, Middle, Middle],
            marbles: [TopLeft, BottomRight, BottomRight, BottomRight, BottomRight, TopLeft],
            tray_offset: 7,
        }
    } else if j == 1 {
        State {
            bottles: [Top, Middle, Middle, Middle, Middle, Middle],
            marbles: [BottomRight, TopLeft, BottomRight, BottomRight, BottomRight, TopLeft],
            tray_offset: 8,
        }
    } else if j == 2 {
        State {
            bottles: [Middle, Middle, Middle, Middle, Middle, Middle],
            marbles: [TopLeft, TopLeft, TopLeft, BottomRight, BottomRight, TopLeft],
            tray_offset: 7,
        }
    } else if j == 3 {
        State {
            bottles: [Middle, Top, Middle, Middle, Middle, Middle],
            marbles: [BottomRight, BottomRight, TopLeft, BottomRight, BottomRight, TopLeft],
            tray_offset: 8,
        }
    } else if j == 4 {
        State {
            bottles: [Middle, Top, Middle, Middle, Middle, Middle],
            marbles: [BottomRight, BottomRight, TopLeft, TopLeft, BottomRight, TopLeft],
            tray_offset: 7,
        }
    } else if j == 5 {
        State {
            bottles: [Bottom, Middle, Middle, Middle, Middle, Middle],
            marbles: [BottomLeft, TopLeft, TopLeft, TopLeft, BottomRight, TopLeft],
            tray_offset: 7,
        }
    } else if j == 6 {
        State {
            bottles: [Top, Middle, Middle, Middle, Middle, Middle],
            marbles: [BottomRight, TopLeft, BottomRight, TopLeft, BottomRight, TopLeft],
            tray_offset: 7,
        }
    } else if j == 7 {
        State {
            bottles: [Middle, Middle, Top, Middle, Middle, Middle],
            marbles: [TopLeft, BottomRight, BottomRight, TopLeft, BottomRight, TopLeft],
            tray_offset: 7,
        }
    } else if j == 8 {
        State {
            bottles: [Top, Top, Top, Middle, Bottom, Middle],
            marbles: [BottomRight, BottomRight, BottomRight, TopLeft, BottomRight, TopLeft],
            tray_offset: 11,
        }
    } else if j == 9 {
        State {
            bottles: [Middle, Top, Top, Middle, Middle, Middle],
            marbles: [TopLeft, BottomRight, BottomRight, TopLeft, TopLeft, TopLeft],
            tray_offset: 7,
        }
    } else if j == 10 {
        State {
            bottles: [Middle, Middle, Top, Middle, Middle, Middle],
            marbles: [BottomRight, TopLeft, BottomRight, TopLeft, TopLeft, TopLeft],
            tray_offset: 8,
        }
    } else if j == 11 {
        State {
            bottles: [Bottom, Middle, Middle, Middle, Middle, Middle],
            marbles: [BottomRight, TopLeft, TopLeft, TopLeft, TopLeft, TopLeft],
            tray_offset: 7,
        }
    } else if j == 12 {
        State {
            bottles: [Bottom, Top, Middle, Middle, Middle, Middle],
            marbles: [BottomRight, BottomRight, TopLeft, TopLeft, TopLeft, TopLeft],
            tray_offset: 7,
        }
    } else if j == 13 {
        State {
            bottles: [Top, Top, Middle, Middle, Middle, Middle],
            marbles: [BottomRight, BottomRight, TopLeft, BottomRight, TopLeft, TopLeft],
            tray_offset: 8,
        }
    } else if j == 14 {
        State {
            bottles: [Middle, Bottom, Middle, Top, Middle, Middle],
            marbles: [TopLeft, BottomLeft, TopLeft, BottomRight, TopLeft, TopLeft],
            tray_offset: 8,
        }
    } else if j == 15 {
        State {
            bottles: [Top, Middle, Bottom, Top, Middle, Middle],
            marbles: [BottomRight, TopLeft, BottomRight, BottomRight, TopLeft, TopLeft],
            tray_offset: 9,
        }
    } else if j == 16 {
        State {
            bottles: [Middle, Bottom, Top, Top, Middle, Middle],
            marbles: [TopLeft, BottomLeft, BottomRight, BottomRight, TopLeft, TopLeft],
            tray_offset: 8,
        }
    } else if j == 17 {
        State {
            bottles: [Top, Top, Top, Top, Middle, Middle],
            marbles: [BottomRight, BottomRight, BottomRight, BottomRight, TopLeft, TopLeft],
            tray_offset: 9,
        }
    } else if j == 18 {
        State {
            bottles: [Top, Top, Top, Top, Middle, Middle],
            marbles: [BottomRight, BottomRight, BottomRight, BottomRight, TopLeft, BottomRight],
            tray_offset: 8,
        }
    } else if j == 19 {
        State {
            bottles: [Middle, Bottom, Top, Top, Middle, Top],
            marbles: [TopLeft, BottomLeft, BottomRight, BottomRight, TopLeft, BottomRight],
            tray_offset: 8,
        }
    } else if j == 20 {
        State {
            bottles: [Top, Middle, Bottom, Top, Middle, Top],
            marbles: [BottomRight, TopLeft, BottomRight, BottomRight, TopLeft, BottomRight],
            tray_offset: 9,
        }
    } else if j == 21 {
        State {
            bottles: [Middle, Bottom, Middle, Top, Middle, Top],
            marbles: [TopLeft, BottomLeft, TopLeft, BottomRight, TopLeft, BottomRight],
            tray_offset: 8,
        }
    } else if j == 22 {
        State {
            bottles: [Top, Top, Middle, Top, Middle, Top],
            marbles: [BottomRight, BottomRight, TopLeft, BottomRight, TopLeft, BottomRight],
            tray_offset: 9,
        }
    } else if j == 23 {
        State {
            bottles: [Bottom, Top, Middle, Middle, Middle, Top],
            marbles: [BottomRight, BottomRight, TopLeft, TopLeft, TopLeft, BottomRight],
            tray_offset: 7,
        }
    } else if j == 24 {
        State {
            bottles: [Bottom, Middle, Middle, Middle, Middle, Top],
            marbles: [BottomRight, TopLeft, TopLeft, TopLeft, TopLeft, BottomRight],
            tray_offset: 7,
        }
    } else if j == 25 {
        State {
            bottles: [Top, Middle, Top, Middle, Middle, Top],
            marbles: [BottomRight, TopLeft, BottomRight, TopLeft, TopLeft, BottomRight],
            tray_offset: 7,
        }
    } else if j == 26 {
        State {
            bottles: [Middle, Top, Top, Middle, Middle, Top],
            marbles: [TopLeft, BottomRight, BottomRight, TopLeft, TopLeft, BottomRight],
            tray_offset: 7,
        }
    } else if j == 27 {
        State {
            bottles: [Top, Top, Top, Middle, Bottom, Top],
            marbles: [BottomRight, BottomRight, BottomRight, TopLeft, BottomRight, BottomRight],
            tray_offset: 11,
        }
    } else if j == 28 {
        State {
            bottles: [Middle, Top, Top, Middle, Top, Top],
            marbles: [TopLeft, BottomRight, BottomRight, TopLeft, BottomRight, BottomRight],
            tray_offset: 7,
        }
    } else if j == 29 {
        State {
            bottles: [Middle, Middle, Top, Middle, Top, Top],
            marbles: [BottomRight, TopLeft, BottomRight, TopLeft, BottomRight, BottomRight],
            tray_offset: 8,
        }
    } else if j == 30 {
        State {
            bottles: [Bottom, Middle, Middle, Middle, Top, Top],
            marbles: [BottomRight, TopLeft, TopLeft, TopLeft, BottomRight, BottomRight],
            tray_offset: 7,
        }
    } else if j == 31 {
        State {
            bottles: [Bottom, Top, Middle, Middle, Top, Top],
            marbles: [BottomRight, BottomRight, TopLeft, TopLeft, BottomRight, BottomRight],
            tray_offset: 7,
        }
    } else if j == 32 {
        State {
            bottles: [Top, Top, Middle, Middle, Top, Top],
            marbles: [BottomRight, BottomRight, TopLeft, BottomRight, BottomRight, BottomRight],
            tray_offset: 8,
        }
    } else if j == 33 {
        State {
            bottles: [Middle, Bottom, Middle, Top, Top, Top],
            marbles: [TopLeft, BottomLeft, TopLeft, BottomRight, BottomRight, BottomRight],
            tray_offset: 8,
        }
    } else if j == 34 {
        State {
            bottles: [Top, Middle, Bottom, Top, Top, Top],
            marbles: [BottomRight, TopLeft, BottomRight, BottomRight, BottomRight, BottomRight],
            tray_offset: 9,
        }
    } else if j == 35 {
        State {
            bottles: [Middle, Bottom, Top, Top, Top, Top],
            marbles: [TopLeft, BottomLeft, BottomRight, BottomRight, BottomRight, BottomRight],
            tray_offset: 8,
        }
    } else if j == 36 {
        State {
            bottles: [Middle, Top, Top, Top, Top, Top],
            marbles: [BottomRight, BottomRight, BottomRight, BottomRight, BottomRight, BottomRight],
            tray_offset: 4,
        }
    } else {
        State {
            bottles: [Top, Top, Top, Top, Top, Top],
            marbles: [BottomRight, BottomRight, BottomRight, BottomRight, BottomRight, BottomRight],
            tray_offset: 0,
        }
    }
}

/// One more move on a run from the designated start.
proof fn hop(s: State, m: Move, n: nat) -> (t: State)
    requires
        reaches(designated(), s, n),
        legal(s, m),
    ensures
        t == apply(s, m),
        reaches(designated(), t, n + 1),
{
    let (moves, states) = choose|moves: Seq<Move>, states: Seq<State>| #[trigger]
        is_run(designated(), moves, states) && moves.len() == n && states.last() == s;
    let t = apply(s, m);
    let longer = moves.push(m);
    let passed = states.push(t);
    assert forall|i: int| 0 <= i < longer.len() implies step(passed[i], #[trigger] longer[i])
        == Some(passed[i + 1]) by {
        if i < moves.len() {
            assert(longer[i] == moves[i]);
            assert(step(states[i], moves[i]) == Some(states[i + 1]));
        }
    }
    assert(is_run(designated(), longer, passed) && longer.len() == n + 1 && passed.last() == t);
    t
}

/// The moves of the way out from move 0 up to move 10.
proof fn lemma_stretch_0()
    requires
        reaches(designated(), mark(0), 0),
    ensures
        reaches(designated(), mark(1), 10),
{
    let s = mark(0);
    let s = hop(s, TrayRight, 0);
    let s = hop(s, BottleDown(1), 1);
    let s = hop(s, MarbleLeft(1), 2);
    let s = hop(s, BottleUp(1), 3);
    let s = hop(s, TrayLeft, 4);
    let s = hop(s, BottleDown(0), 5);
    let s = hop(s, MarbleRight(0), 6);
    let s = hop(s, BottleUp(0), 7);
    let s = hop(s, TrayRight, 8);
    let s = hop(s, BottleUp(0), 9);
    assert(s.bottles =~= mark(1).bottles);
    assert(s.marbles =~= mark(1).marbles);
}

/// The moves of the way out from move 10 up to move 20.
proof fn lemma_stretch_1()
    requires
        reaches(designated(), mark(1), 10),
    ensures
        reaches(designated(), mark(2), 20),
{
    let s = mark(1);
    let s = hop(s, TrayRight, 10);
    let s = hop(s, BottleDown(2), 11);
    let s = hop(s, MarbleLeft(2), 12);
    let s = hop(s, BottleUp(2), 13);
    let s = hop(s, TrayLeft, 14);
    let s = hop(s, TrayLeft, 15);
    let s = hop(s, BottleDown(0), 16);
    let s = hop(s, BottleDown(0), 17);
    let s = hop(s, MarbleLeft(0), 18);
    let s = hop(s, BottleUp(0), 19);
    assert(s.bottles =~= mark(2).bottles);
    assert(s.marbles =~= mark(2).marbles);
}

/// The moves of the way out from move 20 up to move 30.
proof fn lemma_stretch_2()
    requires
        reaches(designated(), mark(2), 20),
    ensures
        reaches(designated(), mark(3), 30),
{
    let s = mark(2);
    let s = hop(s, TrayRight, 20);
    let s = hop(s, BottleDown(1), 21);
    let s = hop(s, MarbleRight(1), 22);
    let s = hop(s, BottleUp(1), 23);
    let s = hop(s, TrayLeft, 24);
    let s = hop(s, BottleUp(1), 25);
    let s = hop(s, BottleDown(0), 26);
    let s = hop(s, MarbleRight(0), 27);
    let s = hop(s, BottleUp(0), 28);
    let s = hop(s, TrayRight, 29);
    assert(s.bottles =~= mark(3).bottles);
    assert(s.marbles =~= mark(3).marbles);
}

/// The moves of the way out from move 30 up to move 40.
proof fn lemma_stretch_3()
    requires
        reaches(designated(), mark(3), 30),
    ensures
        reaches(designated(), mark(4), 40),
{
    let s = mark(3);
    let s = hop(s, BottleUp(0), 30);
    let s = hop(s, TrayRight, 31);
    let s = hop(s, TrayRight, 32);
    let s = hop(s, BottleDown(3), 33);
    let s = hop(s, MarbleLeft(3), 34);
    let s = hop(s, BottleUp(3), 35);
    let s = hop(s, TrayLeft, 36);
    let s = hop(s, TrayLeft, 37);
    let s = hop(s, TrayLeft, 38);
    let s = hop(s, BottleDown(0), 39);
    assert(s.bottles =~= mark(4).bottles);
    assert(s.marbles =~= mark(4).marbles);
}

/// The moves of the way out from move 40 up to move 50.
proof fn lemma_stretch_4()
    requires
        reaches(designated(), mark(4), 40),
    ensures
        reaches(designated(), mark(5), 50),
{
    let s = mark(4);
    let s = hop(s, BottleDown(0), 40);
    let s = hop(s, MarbleLeft(0), 41);
    let s = hop(s, BottleUp(0), 42);
    let s = hop(s, TrayRight, 43);
    let s = hop(s, BottleDown(1), 44);
    let s = hop(s, BottleDown(1), 45);
    let s = hop(s, MarbleLeft(1), 46);
    let s = hop(s, BottleUp(1), 47);
    let s = hop(s, TrayLeft, 48);
    let s = hop(s, BottleDown(0), 49);
    assert(s.bottles =~= mark(5).bottles);
    assert(s.marbles =~= mark(5).marbles);
}

/// The moves of the way out from move 50 up to move 60.
proof fn lemma_stretch_5()
    requires
        reaches(designated(), mark(5), 50),
    ensures
        reaches(designated(), mark(6), 60),
{
    let s = mark(5);
    let s = hop(s, MarbleRight(0), 50);
    let s = hop(s, BottleUp(0), 51);
    let s = hop(s, TrayRight, 52);
    let s = hop(s, BottleUp(0), 53);
    let s = hop(s, TrayRight, 54);
    let s = hop(s, BottleDown(2), 55);
    let s = hop(s, MarbleRight(2), 56);
    let s = hop(s, BottleUp(2), 57);
    let s = hop(s, TrayLeft, 58);
    let s = hop(s, TrayLeft, 59);
    assert(s.bottles =~= mark(6).bottles);
    assert(s.marbles =~= mark(6).marbles);
}

/// The moves of the way out from move 60 up to move 70.
proof fn lemma_stretch_6()
    requires
        reaches(designated(), mark(6), 60),
    ensures
        reaches(designated(), mark(7), 70),
{
    let s = mark(6);
    let s = hop(s, BottleUp(2), 60);
    let s = hop(s, BottleDown(0), 61);
    let s = hop(s, BottleDown(0), 62);
    let s = hop(s, MarbleLeft(0), 63);
    let s = hop(s, BottleUp(0), 64);
    let s = hop(s, TrayRight, 65);
    let s = hop(s, BottleDown(1), 66);
    let s = hop(s, MarbleRight(1), 67);
    let s = hop(s, BottleUp(1), 68);
    let s = hop(s, TrayLeft, 69);
    assert(s.bottles =~= mark(7).bottles);
    assert(s.marbles =~= mark(7).marbles);
}

/// The moves of the way out from move 70 up to move 80.
proof fn lemma_stretch_7()
    requires
        reaches(designated(), mark(7), 70),
    ensures
        reaches(designated(), mark(8), 80),
{
    let s = mark(7);
    let s = hop(s, BottleUp(1), 70);
    let s = hop(s, BottleDown(0), 71);
    let s = hop(s, MarbleRight(0), 72);
    let s = hop(s, BottleUp(0), 73);
    let s = hop(s, TrayRight, 74);
    let s = hop(s, BottleUp(0), 75);
    let s = hop(s, TrayRight, 76);
    let s = hop(s, TrayRight, 77);
    let s = hop(s, TrayRight, 78);
    let s = hop(s, BottleDown(4), 79);
    assert(s.bottles =~= mark(8).bottles);
    assert(s.marbles =~= mark(8).marbles);
}

/// The moves of the way out from move 80 up to move 90.
proof fn lemma_stretch_8()
    requires
        reaches(designated(), mark(8), 80),
    ensures
        reaches(designated(), mark(9), 90),
{
    let s = mark(8);
    let s = hop(s, MarbleLeft(4), 80);
    let s = hop(s, BottleUp(4), 81);
    let s = hop(s, TrayLeft, 82);
    let s = hop(s, TrayLeft, 83);
    let s = hop(s, TrayLeft, 84);
    let s = hop(s, TrayLeft, 85);
    let s = hop(s, BottleDown(0), 86);
    let s = hop(s, BottleDown(0), 87);
    let s = hop(s, MarbleLeft(0), 88);
    let s = hop(s, BottleUp(0), 89);
    assert(s.bottles =~= mark(9).bottles);
    assert(s.marbles =~= mark(9).marbles);
}

/// The moves of the way out from move 90 up to move 100.
proof fn lemma_stretch_9()
    requires
        reaches(designated(), mark(9), 90),
    ensures
        reaches(designated(), mark(10), 100),
{
    let s = mark(9);
    let s = hop(s, TrayRight, 90);
    let s = hop(s, BottleDown(1), 91);
    let s = hop(s, BottleDown(1), 92);
    let s = hop(s, MarbleLeft(1), 93);
    let s = hop(s, BottleUp(1), 94);
    let s = hop(s, TrayLeft, 95);
    let s = hop(s, BottleDown(0), 96);
    let s = hop(s, MarbleRight(0), 97);
    let s = hop(s, BottleUp(0), 98);
    let s = hop(s, TrayRight, 99);
    assert(s.bottles =~= mark(10).bottles);
    assert(s.marbles =~= mark(10).marbles);
}

/// The moves of the way out from move 100 up to move 110.
proof fn lemma_stretch_10()
    requires
        reaches(designated(), mark(10), 100),
    ensures
        reaches(designated(), mark(11), 110),
{
    let s = mark(10);
    let s = hop(s, BottleUp(0), 100);
    let s = hop(s, TrayRight, 101);
    let s = hop(s, BottleDown(2), 102);
    let s = hop(s, BottleDown(2), 103);
    let s = hop(s, MarbleLeft(2), 104);
    let s = hop(s, BottleUp(2), 105);
    let s = hop(s, TrayLeft, 106);
    let s = hop(s, TrayLeft, 107);
    let s = hop(s, BottleDown(0), 108);
    let s = hop(s, BottleDown(0), 109);
    assert(s.bottles =~= mark(11).bottles);
    assert(s.marbles =~= mark(11).marbles);
}

/// The moves of the way out from move 110 up to move 120.
proof fn lemma_stretch_11()
    requires
        reaches(designated(), mark(11), 110),
    ensures
        reaches(designated(), mark(12), 120),
{
    let s = mark(11);
    let s = hop(s, MarbleLeft(0), 110);
    let s = hop(s, BottleUp(0), 111);
    let s = hop(s, TrayRight, 112);
    let s = hop(s, BottleDown(1), 113);
    let s = hop(s, MarbleRight(1), 114);
    let s = hop(s, BottleUp(1), 115);
    let s = hop(s, TrayLeft, 116);
    let s = hop(s, BottleUp(1), 117);
    let s = hop(s, BottleDown(0), 118);
    let s = hop(s, MarbleRight(0), 119);
    assert(s.bottles =~= mark(12).bottles);
    assert(s.marbles =~= mark(12).marbles);
}

/// The moves of the way out from move 120 up to move 130.
proof fn lemma_stretch_12()
    requires
        reaches(designated(), mark(12), 120),
    ensures
        reaches(designated(), mark(13), 130),
{
    let s = mark(12);
    let s = hop(s, BottleUp(0), 120);
    let s = hop(s, TrayRight, 121);
    let s = hop(s, BottleUp(0), 122);
    let s = hop(s, TrayRight, 123);
    let s = hop(s, TrayRight, 124);
    let s = hop(s, BottleDown(3), 125);
    let s = hop(s, MarbleRight(3), 126);
    let s = hop(s, BottleUp(3), 127);
    let s = hop(s, TrayLeft, 128);
    let s = hop(s, TrayLeft, 129);
    assert(s.bottles =~= mark(13).bottles);
    assert(s.marbles =~= mark(13).marbles);
}

/// The moves of the way out from move 130 up to move 140.
proof fn lemma_stretch_13()
    requires
        reaches(designated(), mark(13), 130),
    ensures
        reaches(designated(), mark(14), 140),
{
    let s = mark(13);
    let s = hop(s, TrayLeft, 130);
    let s = hop(s, BottleUp(3), 131);
    let s = hop(s, BottleDown(0), 132);
    let s = hop(s, BottleDown(0), 133);
    let s = hop(s, MarbleLeft(0), 134);
    let s = hop(s, BottleUp(0), 135);
    let s = hop(s, TrayRight, 136);
    let s = hop(s, BottleDown(1), 137);
    let s = hop(s, BottleDown(1), 138);
    let s = hop(s, MarbleLeft(1), 139);
    assert(s.bottles =~= mark(14).bottles);
    assert(s.marbles =~= mark(14).marbles);
}

/// The moves of the way out from move 140 up to move 150.
proof fn lemma_stretch_14()
    requires
        reaches(designated(), mark(14), 140),
    ensures
        reaches(designated(), mark(15), 150),
{
    let s = mark(14);
    let s = hop(s, BottleUp(1), 140);
    let s = hop(s, TrayLeft, 141);
    let s = hop(s, BottleDown(0), 142);
    let s = hop(s, MarbleRight(0), 143);
    let s = hop(s, BottleUp(0), 144);
    let s = hop(s, TrayRight, 145);
    let s = hop(s, BottleUp(0), 146);
    let s = hop(s, TrayRight, 147);
    let s = hop(s, BottleDown(2), 148);
    let s = hop(s, MarbleRight(2), 149);
    assert(s.bottles =~= mark(15).bottles);
    assert(s.marbles =~= mark(15).marbles);
}

/// The moves of the way out from move 150 up to move 160.
proof fn lemma_stretch_15()
    requires
        reaches(designated(), mark(15), 150),
    ensures
        reaches(designated(), mark(16), 160),
{
    let s = mark(15);
    let s = hop(s, BottleUp(2), 150);
    let s = hop(s, TrayLeft, 151);
    let s = hop(s, TrayLeft, 152);
    let s = hop(s, BottleUp(2), 153);
    let s = hop(s, BottleDown(0), 154);
    let s = hop(s, BottleDown(0), 155);
    let s = hop(s, MarbleLeft(0), 156);
    let s = hop(s, BottleUp(0), 157);
    let s = hop(s, TrayRight, 158);
    let s = hop(s, BottleDown(1), 159);
    assert(s.bottles =~= mark(16).bottles);
    assert(s.marbles =~= mark(16).marbles);
}

/// The moves of the way out from move 160 up to move 170.
proof fn lemma_stretch_16()
    requires
        reaches(designated(), mark(16), 160),
    ensures
        reaches(designated(), mark(17), 170),
{
    let s = mark(16);
    let s = hop(s, MarbleRight(1), 160);
    let s = hop(s, BottleUp(1), 161);
    let s = hop(s, TrayLeft, 162);
    let s = hop(s, BottleUp(1), 163);
    let s = hop(s, BottleDown(0), 164);
    let s = hop(s, MarbleRight(0), 165);
    let s = hop(s, BottleUp(0), 166);
    let s = hop(s, TrayRight, 167);
    let s = hop(s, BottleUp(0), 168);
    let s = hop(s, TrayRight, 169);
    assert(s.bottles =~= mark(17).bottles);
    assert(s.marbles =~= mark(17).marbles);
}

/// The moves of the way out from move 170 up to move 180.
proof fn lemma_stretch_17()
    requires
        reaches(designated(), mark(17), 170),
    ensures
        reaches(designated(), mark(18), 180),
{
    let s = mark(17);
    let s = hop(s, TrayRight, 170);
    let s = hop(s, TrayRight, 171);
    let s = hop(s, TrayRight, 172);
    let s = hop(s, BottleDown(5), 173);
    let s = hop(s, MarbleRight(5), 174);
    let s = hop(s, BottleUp(5), 175);
    let s = hop(s, TrayLeft, 176);
    let s = hop(s, TrayLeft, 177);
    let s = hop(s, TrayLeft, 178);
    let s = hop(s, TrayLeft, 179);
    assert(s.bottles =~= mark(18).bottles);
    assert(s.marbles =~= mark(18).marbles);
}

/// The moves of the way out from move 180 up to move 190.
proof fn lemma_stretch_18()
    requires
        reaches(designated(), mark(18), 180),
    ensures
        reaches(designated(), mark(19), 190),
{
    let s = mark(18);
    let s = hop(s, TrayLeft, 180);
    let s = hop(s, BottleUp(5), 181);
    let s = hop(s, BottleDown(0), 182);
    let s = hop(s, BottleDown(0), 183);
    let s = hop(s, MarbleLeft(0), 184);
    let s = hop(s, BottleUp(0), 185);
    let s = hop(s, TrayRight, 186);
    let s = hop(s, BottleDown(1), 187);
    let s = hop(s, BottleDown(1), 188);
    let s = hop(s, MarbleLeft(1), 189);
    assert(s.bottles =~= mark(19).bottles);
    assert(s.marbles =~= mark(19).marbles);
}

/// The moves of the way out from move 190 up to move 200.
proof fn lemma_stretch_19()
    requires
        reaches(designated(), mark(19), 190),
    ensures
        reaches(designated(), mark(20), 200),
{
    let s = mark(19);
    let s = hop(s, BottleUp(1), 190);
    let s = hop(s, TrayLeft, 191);
    let s = hop(s, BottleDown(0), 192);
    let s = hop(s, MarbleRight(0), 193);
    let s = hop(s, BottleUp(0), 194);
    let s = hop(s, TrayRight, 195);
    let s = hop(s, BottleUp(0), 196);
    let s = hop(s, TrayRight, 197);
    let s = hop(s, BottleDown(2), 198);
    let s = hop(s, BottleDown(2), 199);
    assert(s.bottles =~= mark(20).bottles);
    assert(s.marbles =~= mark(20).marbles);
}

/// The moves of the way out from move 200 up to move 210.
proof fn lemma_stretch_20()
    requires
        reaches(designated(), mark(20), 200),
    ensures
        reaches(designated(), mark(21), 210),
{
    let s = mark(20);
    let s = hop(s, MarbleLeft(2), 200);
    let s = hop(s, BottleUp(2), 201);
    let s = hop(s, TrayLeft, 202);
    let s = hop(s, TrayLeft, 203);
    let s = hop(s, BottleDown(0), 204);
    let s = hop(s, BottleDown(0), 205);
    let s = hop(s, MarbleLeft(0), 206);
    let s = hop(s, BottleUp(0), 207);
    let s = hop(s, TrayRight, 208);
    let s = hop(s, BottleDown(1), 209);
    assert(s.bottles =~= mark(21).bottles);
    assert(s.marbles =~= mark(21).marbles);
}

/// The moves of the way out from move 210 up to move 220.
proof fn lemma_stretch_21()
    requires
        reaches(designated(), mark(21), 210),
    ensures
        reaches(designated(), mark(22), 220),
{
    let s = mark(21);
    let s = hop(s, MarbleRight(1), 210);
    let s = hop(s, BottleUp(1), 211);
    let s = hop(s, TrayLeft, 212);
    let s = hop(s, BottleUp(1), 213);
    let s = hop(s, BottleDown(0), 214);
    let s = hop(s, MarbleRight(0), 215);
    let s = hop(s, BottleUp(0), 216);
    let s = hop(s, TrayRight, 217);
    let s = hop(s, BottleUp(0), 218);
    let s = hop(s, TrayRight, 219);
    assert(s.bottles =~= mark(22).bottles);
    assert(s.marbles =~= mark(22).marbles);
}

/// The moves of the way out from move 220 up to move 230.
proof fn lemma_stretch_22()
    requires
        reaches(designated(), mark(22), 220),
    ensures
        reaches(designated(), mark(23), 230),
{
    let s = mark(22);
    let s = hop(s, TrayRight, 220);
    let s = hop(s, BottleDown(3), 221);
    let s = hop(s, BottleDown(3), 222);
    let s = hop(s, MarbleLeft(3), 223);
    let s = hop(s, BottleUp(3), 224);
    let s = hop(s, TrayLeft, 225);
    let s = hop(s, TrayLeft, 226);
    let s = hop(s, TrayLeft, 227);
    let s = hop(s, BottleDown(0), 228);
    let s = hop(s, BottleDown(0), 229);
    assert(s.bottles =~= mark(23).bottles);
    assert(s.marbles =~= mark(23).marbles);
}

/// The moves of the way out from move 230 up to move 240.
proof fn lemma_stretch_23()
    requires
        reaches(designated(), mark(23), 230),
    ensures
        reaches(designated(), mark(24), 240),
{
    let s = mark(23);
    let s = hop(s, MarbleLeft(0), 230);
    let s = hop(s, BottleUp(0), 231);
    let s = hop(s, TrayRight, 232);
    let s = hop(s, BottleDown(1), 233);
    let s = hop(s, BottleDown(1), 234);
    let s = hop(s, MarbleLeft(1), 235);
    let s = hop(s, BottleUp(1), 236);
    let s = hop(s, TrayLeft, 237);
    let s = hop(s, BottleDown(0), 238);
    let s = hop(s, MarbleRight(0), 239);
    assert(s.bottles =~= mark(24).bottles);
    assert(s.marbles =~= mark(24).marbles);
}

/// The moves of the way out from move 240 up to move 250.
proof fn lemma_stretch_24()
    requires
        reaches(designated(), mark(24), 240),
    ensures
        reaches(designated(), mark(25), 250),
{
    let s = mark(24);
    let s = hop(s, BottleUp(0), 240);
    let s = hop(s, TrayRight, 241);
    let s = hop(s, BottleUp(0), 242);
    let s = hop(s, TrayRight, 243);
    let s = hop(s, BottleDown(2), 244);
    let s = hop(s, MarbleRight(2), 245);
    let s = hop(s, BottleUp(2), 246);
    let s = hop(s, TrayLeft, 247);
    let s = hop(s, TrayLeft, 248);
    let s = hop(s, BottleUp(2), 249);
    assert(s.bottles =~= mark(25).bottles);
    assert(s.marbles =~= mark(25).marbles);
}

/// The moves of the way out from move 250 up to move 260.
proof fn lemma_stretch_25()
    requires
        reaches(designated(), mark(25), 250),
    ensures
        reaches(designated(), mark(26), 260),
{
    let s = mark(25);
    let s = hop(s, BottleDown(0), 250);
    let s = hop(s, BottleDown(0), 251);
    let s = hop(s, MarbleLeft(0), 252);
    let s = hop(s, BottleUp(0), 253);
    let s = hop(s, TrayRight, 254);
    let s = hop(s, BottleDown(1), 255);
    let s = hop(s, MarbleRight(1), 256);
    let s = hop(s, BottleUp(1), 257);
    let s = hop(s, TrayLeft, 258);
    let s = hop(s, BottleUp(1), 259);
    assert(s.bottles =~= mark(26).bottles);
    assert(s.marbles =~= mark(26).marbles);
}

/// The moves of the way out from move 260 up to move 270.
proof fn lemma_stretch_26()
    requires
        reaches(designated(), mark(26), 260),
    ensures
        reaches(designated(), mark(27), 270),
{
    let s = mark(26);
    let s = hop(s, BottleDown(0), 260);
    let s = hop(s, MarbleRight(0), 261);
    let s = hop(s, BottleUp(0), 262);
    let s = hop(s, TrayRight, 263);
    let s = hop(s, BottleUp(0), 264);
    let s = hop(s, TrayRight, 265);
    let s = hop(s, TrayRight, 266);
    let s = hop(s, TrayRight, 267);
    let s = hop(s, BottleDown(4), 268);
    let s = hop(s, MarbleRight(4), 269);
    assert(s.bottles =~= mark(27).bottles);
    assert(s.marbles =~= mark(27).marbles);
}

/// The moves of the way out from move 270 up to move 280.
proof fn lemma_stretch_27()
    requires
        reaches(designated(), mark(27), 270),
    ensures
        reaches(designated(), mark(28), 280),
{
    let s = mark(27);
    let s = hop(s, BottleUp(4), 270);
    let s = hop(s, TrayLeft, 271);
    let s = hop(s, TrayLeft, 272);
    let s = hop(s, TrayLeft, 273);
    let s = hop(s, TrayLeft, 274);
    let s = hop(s, BottleUp(4), 275);
    let s = hop(s, BottleDown(0), 276);
    let s = hop(s, BottleDown(0), 277);
    let s = hop(s, MarbleLeft(0), 278);
    let s = hop(s, BottleUp(0), 279);
    assert(s.bottles =~= mark(28).bottles);
    assert(s.marbles =~= mark(28).marbles);
}

/// The moves of the way out from move 280 up to move 290.
proof fn lemma_stretch_28()
    requires
        reaches(designated(), mark(28), 280),
    ensures
        reaches(designated(), mark(29), 290),
{
    let s = mark(28);
    let s = hop(s, TrayRight, 280);
    let s = hop(s, BottleDown(1), 281);
    let s = hop(s, BottleDown(1), 282);
    let s = hop(s, MarbleLeft(1), 283);
    let s = hop(s, BottleUp(1), 284);
    let s = hop(s, TrayLeft, 285);
    let s = hop(s, BottleDown(0), 286);
    let s = hop(s, MarbleRight(0), 287);
    let s = hop(s, BottleUp(0), 288);
    let s = hop(s, TrayRight, 289);
    assert(s.bottles =~= mark(29).bottles);
    assert(s.marbles =~= mark(29).marbles);
}

/// The moves of the way out from move 290 up to move 300.
proof fn lemma_stretch_29()
    requires
        reaches(designated(), mark(29), 290),
    ensures
        reaches(designated(), mark(30), 300),
{
    let s = mark(29);
    let s = hop(s, BottleUp(0), 290);
    let s = hop(s, TrayRight, 291);
    let s = hop(s, BottleDown(2), 292);
    let s = hop(s, BottleDown(2), 293);
    let s = hop(s, MarbleLeft(2), 294);
    let s = hop(s, BottleUp(2), 295);
    let s = hop(s, TrayLeft, 296);
    let s = hop(s, TrayLeft, 297);
    let s = hop(s, BottleDown(0), 298);
    let s = hop(s, BottleDown(0), 299);
    assert(s.bottles =~= mark(30).bottles);
    assert(s.marbles =~= mark(30).marbles);
}

/// The moves of the way out from move 300 up to move 310.
proof fn lemma_stretch_30()
    requires
        reaches(designated(), mark(30), 300),
    ensures
        reaches(designated(), mark(31), 310),
{
    let s = mark(30);
    let s = hop(s, MarbleLeft(0), 300);
    let s = hop(s, BottleUp(0), 301);
    let s = hop(s, TrayRight, 302);
    let s = hop(s, BottleDown(1), 303);
    let s = hop(s, MarbleRight(1), 304);
    let s = hop(s, BottleUp(1), 305);
    let s = hop(s, TrayLeft, 306);
    let s = hop(s, BottleUp(1), 307);
    let s = hop(s, BottleDown(0), 308);
    let s = hop(s, MarbleRight(0), 309);
    assert(s.bottles =~= mark(31).bottles);
    assert(s.marbles =~= mark(31).marbles);
}

/// The moves of the way out from move 310 up to move 320.
proof fn lemma_stretch_31()
    requires
        reaches(designated(), mark(31), 310),
    ensures
        reaches(designated(), mark(32), 320),
{
    let s = mark(31);
    let s = hop(s, BottleUp(0), 310);
    let s = hop(s, TrayRight, 311);
    let s = hop(s, BottleUp(0), 312);
    let s = hop(s, TrayRight, 313);
    let s = hop(s, TrayRight, 314);
    let s = hop(s, BottleDown(3), 315);
    let s = hop(s, MarbleRight(3), 316);
    let s = hop(s, BottleUp(3), 317);
    let s = hop(s, TrayLeft, 318);
    let s = hop(s, TrayLeft, 319);
    assert(s.bottles =~= mark(32).bottles);
    assert(s.marbles =~= mark(32).marbles);
}

/// The moves of the way out from move 320 up to move 330.
proof fn lemma_stretch_32()
    requires
        reaches(designated(), mark(32), 320),
    ensures
        reaches(designated(), mark(33), 330),
{
    let s = mark(32);
    let s = hop(s, TrayLeft, 320);
    let s = hop(s, BottleUp(3), 321);
    let s = hop(s, BottleDown(0), 322);
    let s = hop(s, BottleDown(0), 323);
    let s = hop(s, MarbleLeft(0), 324);
    let s = hop(s, BottleUp(0), 325);
    let s = hop(s, TrayRight, 326);
    let s = hop(s, BottleDown(1), 327);
    let s = hop(s, BottleDown(1), 328);
    let s = hop(s, MarbleLeft(1), 329);
    assert(s.bottles =~= mark(33).bottles);
    assert(s.marbles =~= mark(33).marbles);
}

/// The moves of the way out from move 330 up to move 340.
proof fn lemma_stretch_33()
    requires
        reaches(designated(), mark(33), 330),
    ensures
        reaches(designated(), mark(34), 340),
{
    let s = mark(33);
    let s = hop(s, BottleUp(1), 330);
    let s = hop(s, TrayLeft, 331);
    let s = hop(s, BottleDown(0), 332);
    let s = hop(s, MarbleRight(0), 333);
    let s = hop(s, BottleUp(0), 334);
    let s = hop(s, TrayRight, 335);
    let s = hop(s, BottleUp(0), 336);
    let s = hop(s, TrayRight, 337);
    let s = hop(s, BottleDown(2), 338);
    let s = hop(s, MarbleRight(2), 339);
    assert(s.bottles =~= mark(34).bottles);
    assert(s.marbles =~= mark(34).marbles);
}

/// The moves of the way out from move 340 up to move 350.
proof fn lemma_stretch_34()
    requires
        reaches(designated(), mark(34), 340),
    ensures
        reaches(designated(), mark(35), 350),
{
    let s = mark(34);
    let s = hop(s, BottleUp(2), 340);
    let s = hop(s, TrayLeft, 341);
    let s = hop(s, TrayLeft, 342);
    let s = hop(s, BottleUp(2), 343);
    let s = hop(s, BottleDown(0), 344);
    let s = hop(s, BottleDown(0), 345);
    let s = hop(s, MarbleLeft(0), 346);
    let s = hop(s, BottleUp(0), 347);
    let s = hop(s, TrayRight, 348);
    let s = hop(s, BottleDown(1), 349);
    assert(s.bottles =~= mark(35).bottles);
    assert(s.marbles =~= mark(35).marbles);
}

/// The moves of the way out from move 350 up to move 360.
proof fn lemma_stretch_35()
    requires
        reaches(designated(), mark(35), 350),
    ensures
        reaches(designated(), mark(36), 360),
{
    let s = mark(35);
    let s = hop(s, MarbleRight(1), 350);
    let s = hop(s, BottleUp(1), 351);
    let s = hop(s, TrayLeft, 352);
    let s = hop(s, BottleUp(1), 353);
    let s = hop(s, BottleDown(0), 354);
    let s = hop(s, MarbleRight(0), 355);
    let s = hop(s, BottleUp(0), 356);
    let s = hop(s, TrayLeft, 357);
    let s = hop(s, TrayLeft, 358);
    let s = hop(s, TrayLeft, 359);
    assert(s.bottles =~= mark(36).bottles);
    assert(s.marbles =~= mark(36).marbles);
}

/// The moves of the way out from move 360 up to move 365.
proof fn lemma_stretch_36()
    requires
        reaches(designated(), mark(36), 360),
    ensures
        reaches(designated(), mark(37), 365),
{
    let s = mark(36);
    let s = hop(s, TrayLeft, 360);
    let s = hop(s, TrayLeft, 361);
    let s = hop(s, BottleUp(0), 362);
    let s = hop(s, TrayLeft, 363);
    let s = hop(s, TrayLeft, 364);
    assert(s.bottles =~= mark(37).bottles);
    assert(s.marbles =~= mark(37).marbles);
}

/// Some run of `way_out_len()` moves from the designated start takes the
/// tray out.
pub proof fn lemma_designated_solvable()
    ensures
        exists|moves: Seq<Move>, states: Seq<State>| #[trigger]
            solves(designated(), moves, states) && moves.len() == way_out_len(),
        designated().coherent(),
{
    assert(reaches(designated(), mark(0), 0)) by {
        let moves = Seq::<Move>::empty();
        let states = seq![designated()];
        assert(mark(0).bottles =~= designated().bottles);
        assert(mark(0).marbles =~= designated().marbles);
        assert(is_run(designated(), moves, states) && moves.len() == 0 && states.last() == mark(0));
    }
    lemma_stretch_0();
    lemma_stretch_1();
    lemma_stretch_2();
    lemma_stretch_3();
    lemma_stretch_4();
    lemma_stretch_5();
    lemma_stretch_6();
    lemma_stretch_7();
    lemma_stretch_8();
    lemma_stretch_9();
    lemma_stretch_10();
    lemma_stretch_11();
    lemma_stretch_12();
    lemma_stretch_13();
    lemma_stretch_14();
    lemma_stretch_15();
    lemma_stretch_16();
    lemma_stretch_17();
    lemma_stretch_18();
    lemma_stretch_19();
    lemma_stretch_20();
    lemma_stretch_21();
    lemma_stretch_22();
    lemma_stretch_23();
    lemma_stretch_24();
    lemma_stretch_25();
    lemma_stretch_26();
    lemma_stretch_27();
    lemma_stretch_28();
    lemma_stretch_29();
    lemma_stretch_30();
    lemma_stretch_31();
    lemma_stretch_32();
    lemma_stretch_33();
    lemma_stretch_34();
    lemma_stretch_35();
    lemma_stretch_36();
    let last = mark(37);
    let (moves, states) = choose|moves: Seq<Move>, states: Seq<State>| #[trigger]
        is_run(designated(), moves, states) && moves.len() == way_out_len() && states.last()
            == last;
    assert(solves(designated(), moves, states));
    assert forall|i: int| 0 <= i < 6 implies #[trigger] crate::state::groove_coherent(
        designated().bottles[i],
        designated().marbles[i],
    ) by {}
}

/// Searches from the designated start. The search ends with the answer: it
/// meets no violation, and a way out exists.
pub fn solve_designated() -> (sol: Solution)
    ensures
        is_answer(designated(), sol.moves@, sol.states@),
        sol.moves@.len() <= way_out_len(),
{
    let start = designated_start();
    proof {
        lemma_designated_solvable();
    }
    match solve(&start) {
        Ok(sol) => {
            proof {
                let (moves, states) = choose|moves: Seq<Move>, states: Seq<State>| #[trigger]
                    solves(designated(), moves, states) && moves.len() == way_out_len();
                assert(solves(designated(), moves, states));
            }
            sol
        },
        Err(_) => {
            proof {
                let (moves, states) = choose|moves: Seq<Move>, states: Seq<State>| #[trigger]
                    solves(designated(), moves, states) && moves.len() == way_out_len();
                assert(solves(designated(), moves, states));
            }
            vstd::pervasive::unreached()
        },
    }
}

} // verus!
