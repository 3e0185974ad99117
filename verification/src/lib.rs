//! Conway's game of life on a fixed rectangular board, with the board's
//! evolution, drawing and input handling verified against the rules in
//! [`rules`].

pub mod rules;
pub mod board;
pub mod line;
pub mod control;
