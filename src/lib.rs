//! Conway's Game of Life on a toroidal grid: the grid, its wrap-around
//! neighbourhood, the generation rule and the textual pattern format.

pub mod board;
pub mod model;
pub mod patterns;

pub use board::{Board, BoardError};
