//! Conway's Game of Life on an unbounded sparse plane.
//!
//! A board holds only the cells that are alive, and a tick judges only the cells that a
//! live cell can bear on. What a tick computes is stated once, over sets of cells, in
//! [`rule::next_generation`].

pub mod board;
pub mod grid;
mod key;
pub mod rule;

pub use crate::board::Life;
pub use crate::grid::{impacts, neighbors, Point};
