//! Core of a terminal falling-block puzzle: a walled playfield grid,
//! a falling piece with per-shape rotation tables, collision-checked
//! placement, full-row clearing, and the state machine that applies
//! commands and gravity ticks to a board and its active piece.

pub mod board;
pub mod engine;
pub mod mino;
pub mod move_command;
