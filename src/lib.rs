//! Conway's Game of Life on an unbounded integer grid, kept as a sparse set
//! of alive cells.

pub mod cell;
pub mod cell_set;
pub mod life;
