//! Solver for the waiter's tray puzzle: a tray that slides under a row of
//! bottles coupled by marbles, searched breadth-first for a shortest way out.

pub mod code;
pub mod designated;
pub mod geometry;
pub mod state;
pub mod invariants;
pub mod order;
pub mod reversal;
pub mod run;
pub mod search;
mod tree;
