//! Conway's Game of Life on a fixed, clipped (non-toroidal) board.
//!
//! The board is a `ROWS` x `COLS` matrix of cells. One generation step applies
//! the classic birth/survival rule to every cell at once, counting neighbours
//! in the Moore neighbourhood cut off at the board's edges.

pub mod board;
pub mod cell;
pub mod grid;
pub mod laws;
pub mod presets;

pub use cell::{CellState, Position, COLS, ROWS};
pub use grid::ConwaysGrid;
