//! Tic-tac-toe on a fixed 3x3 board: terminal-state detection, a static
//! evaluator, move generation and a depth-bounded alpha-beta search, each with
//! a machine-checked contract.

pub mod board;
pub mod enums;
pub mod evaluate;
pub mod game;
pub mod input;
pub mod moves;
pub mod pruning;
pub mod render;
pub mod search;
