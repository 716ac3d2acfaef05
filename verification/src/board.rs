use vstd::prelude::*;
use crate::cell::{next_state, CellState, Position, COLS, ROWS};

verus! {

/// The contents of a board: its rows, each a sequence of cells.
pub type Cells = Seq<Seq<CellState>>;

/// A coordinate pair (row, column) that may lie off the board.
pub type Coord = (int, int);

/// Whether (row, col) addresses a cell of the board.
pub open spec fn in_grid(row: int, col: int) -> bool {
    0 <= row < ROWS && 0 <= col < COLS
}

/// Whether `cells` stores a cell at (row, col).
pub open spec fn is_stored(cells: Cells, row: int, col: int) -> bool {
    0 <= row < cells.len() && 0 <= col < cells[row].len()
}

/// Whether `cells` stores a live cell at (row, col). Anything that is not
/// stored counts as not alive.
pub open spec fn is_alive(cells: Cells, row: int, col: int) -> bool {
    is_stored(cells, row, col) && cells[row][col] == CellState::Alive
}

/// The contents of a board that has exactly `ROWS` rows of `COLS` cells.
pub open spec fn well_formed(cells: Cells) -> bool {
    &&& cells.len() == ROWS
    &&& forall|row: int| 0 <= row < ROWS ==> (#[trigger] cells[row]).len() == COLS
}

/// The contents held by a vector of rows.
pub open spec fn cells_of(rows: Seq<Vec<CellState>>) -> Cells {
    Seq::new(rows.len(), |row: int| rows[row]@)
}

/// Positions read as coordinate pairs.
pub open spec fn coords(positions: Seq<Position>) -> Seq<Coord> {
    Seq::new(positions.len(), |i: int| (positions[i].0 as int, positions[i].1 as int))
}

/// The eight unit steps to the adjacent cells, in the order in which
/// neighbours are listed.
pub open spec fn offsets() -> Seq<Coord> {
    seq![
        (-1int, -1int),
        (-1int, 0int),
        (0int, -1int),
        (-1int, 1int),
        (0int, 1int),
        (1int, -1int),
        (1int, 0int),
        (1int, 1int),
    ]
}

/// The eight coordinate pairs around (row, col), on the board or not.
pub open spec fn surroundings(row: int, col: int) -> Seq<Coord> {
    Seq::new(8, |k: int| (row + offsets()[k].0, col + offsets()[k].1))
}

/// The predicate "lies on the board".
pub open spec fn on_board() -> spec_fn(Coord) -> bool {
    |p: Coord| in_grid(p.0, p.1)
}

/// The predicate "is a live cell of `cells`".
pub open spec fn alive_in(cells: Cells) -> spec_fn(Coord) -> bool {
    |p: Coord| is_alive(cells, p.0, p.1)
}

/// The clipped Moore neighbourhood of (row, col): those of the eight
/// surrounding coordinate pairs that lie on the board. There is no wrap-around.
pub open spec fn neighborhood(row: int, col: int) -> Seq<Coord> {
    surroundings(row, col).filter(on_board())
}

/// How many of `places` hold a live cell of `cells`.
pub open spec fn alive_among(cells: Cells, places: Seq<Coord>) -> nat {
    places.filter(alive_in(cells)).len()
}

/// The number of live cells in the clipped Moore neighbourhood of (row, col).
pub open spec fn alive_neighbors(cells: Cells, row: int, col: int) -> nat {
    alive_among(cells, neighborhood(row, col))
}

/// `cells` with the cell at (row, col) replaced by `state`; unchanged where no
/// such cell is stored.
pub open spec fn set_cell(cells: Cells, row: int, col: int, state: CellState) -> Cells {
    if is_stored(cells, row, col) {
        cells.update(row, cells[row].update(col, state))
    } else {
        cells
    }
}

/// `cells` with the rule applied to the stored cell at (row, col), given the
/// number of its live neighbours.
pub open spec fn apply_rule(cells: Cells, alive_count: nat, row: int, col: int) -> Cells {
    if is_stored(cells, row, col) {
        set_cell(cells, row, col, next_state(cells[row][col], alive_count))
    } else {
        cells
    }
}

/// The state of the cell at (row, col) one generation after `cells`. A stored
/// cell off the board is left as it is.
pub open spec fn stepped_cell(cells: Cells, row: int, col: int) -> CellState {
    if in_grid(row, col) {
        next_state(cells[row][col], alive_neighbors(cells, row, col))
    } else {
        cells[row][col]
    }
}

/// The generation that follows `cells`: every cell of the board takes the
/// state that the rule gives it from the neighbours it has in `cells`.
pub open spec fn step(cells: Cells) -> Cells {
    Seq::new(cells.len(), |row: int| Seq::new(cells[row].len(), |col: int| stepped_cell(cells, row, col)))
}

/// The board on which every cell is dead.
pub open spec fn empty_cells() -> Cells {
    Seq::new(ROWS as nat, |row: int| Seq::new(COLS as nat, |col: int| CellState::Dead))
}

/// The board on which exactly the listed positions are alive. Listed
/// positions off the board have no effect, and neither has listing a
/// position twice.
pub open spec fn seeded(alive_cells: Seq<Position>) -> Cells {
    Seq::new(
        ROWS as nat,
        |row: int|
            Seq::new(
                COLS as nat,
                |col: int|
                    if coords(alive_cells).contains((row, col)) {
                        CellState::Alive
                    } else {
                        CellState::Dead
                    },
            ),
    )
}

} // verus!
