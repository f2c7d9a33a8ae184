//! A Game of Life simulation engine for a small pixel display driven by a
//! keypad: the board, the generation step with its dirty-cell tracking, and
//! the per-frame interaction state machine.

pub mod eadk;
pub mod key;
pub mod board;
pub mod engine;
pub mod game;
pub mod on_board;
pub mod render;
pub mod laws;
