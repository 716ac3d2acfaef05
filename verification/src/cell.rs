use vstd::prelude::*;

verus! {

/// Number of rows of the board.
pub const ROWS: usize = 32;

/// Number of columns of the board.
pub const COLS: usize = 32;

/// A cell's address: (row, column).
pub type Position = (usize, usize);

/// The state of one cell.
#[derive(Clone, Copy, Debug, PartialEq, Eq, Structural)]
pub enum CellState {
    Dead,
    Alive,
}

/// The rule of the game: a live cell stays alive with two or three live
/// neighbours, a dead cell comes alive with exactly three, and every other
/// cell is dead in the next generation.
pub open spec fn next_state(current: CellState, alive_neighbors: nat) -> CellState {
    match current {
        CellState::Alive => if alive_neighbors == 2 || alive_neighbors == 3 {
            CellState::Alive
        } else {
            CellState::Dead
        },
        CellState::Dead => if alive_neighbors == 3 {
            CellState::Alive
        } else {
            CellState::Dead
        },
    }
}

} // verus!
