//! A drop-piece connection game engine: the board with gravity placement,
//! line enumeration, four-in-a-row detection, the turn state machine, and
//! a depth-limited alpha-beta search that picks the machine's move.

pub mod ai;
pub mod board;
pub mod board_iterators;
pub mod evaluator;
pub mod game;
pub mod validator;
