//! A Sudoku solver that states a puzzle as integer constraints, hands them to
//! the Z3 engine and reads the answer back onto the board.
//!
//! * [`board`]: the raw 81-symbol board and the rules of the game.
//! * [`formula`]: the terms and formulas that stand for what the engine is told.
//! * [`encoding`]: the formulas that the model of a puzzle asserts.
//! * [`engine`]: the calls into the engine, each with the contract it is trusted for.
//! * [`sudoku`]: positions, cells, the constraint model and solving.
//! * [`display`]: decoding an answer, and the board as text.
//! * [`cli`]: where boards come from.
//! * [`laws`]: what holds across these modules.

pub mod board;
pub mod cli;
pub mod display;
pub mod encoding;
pub mod engine;
pub mod formula;
pub mod laws;
pub mod sudoku;
