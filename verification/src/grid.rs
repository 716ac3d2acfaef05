use vstd::prelude::*;
use crate::board::{
    alive_among, alive_in, apply_rule, cells_of, coords, empty_cells, is_stored, neighborhood,
    offsets, on_board, seeded, set_cell, step, surroundings, well_formed, Cells,
};
use crate::cell::{CellState, Position, COLS, ROWS};

verus! {

/// A board of the game: `grid[row][col]` is the cell at (row, col).
///
/// The constructors build boards of `ROWS` rows with `COLS` cells each, and
/// a generation step keeps that shape.
pub struct ConwaysGrid {
    pub grid: Vec<Vec<CellState>>,
}

impl View for ConwaysGrid {
    type V = Cells;

    open spec fn view(&self) -> Cells {
        cells_of(self.grid@)
    }
}

impl Default for ConwaysGrid {
    /// The board on which every cell is dead.
    fn default() -> (board: Self)
        ensures
            board@ == empty_cells(),
            board.wf(),
    {
        Self::empty()
    }
}

impl ConwaysGrid {
    /// The board has exactly `ROWS` rows of `COLS` cells.
    pub open spec fn wf(&self) -> bool {
        well_formed(self@)
    }

    /// The board on which every cell is dead.
    pub fn empty() -> (board: Self)
        ensures
            board@ == empty_cells(),
            board.wf(),
    {
        let mut grid: Vec<Vec<CellState>> = Vec::new();
        let mut row: usize = 0;
        while row < ROWS
            invariant
                row <= ROWS,
                grid@.len() == row,
                forall|r: int| 0 <= r < row ==> (#[trigger] grid@[r])@ == empty_cells()[r],
            decreases ROWS - row,
        {
            let mut cells: Vec<CellState> = Vec::new();
            let mut col: usize = 0;
            while col < COLS
                invariant
                    col <= COLS,
                    cells@.len() == col,
                    forall|c: int| 0 <= c < col ==> #[trigger] cells@[c] == CellState::Dead,
                decreases COLS - col,
            {
                cells.push(CellState::Dead);
                col += 1;
            }
            assert(cells@ =~= empty_cells()[row as int]);
            grid.push(cells);
            row += 1;
        }
        let board = ConwaysGrid { grid };
        assert(board@ =~= empty_cells());
        board
    }

    /// The board on which exactly the listed positions are alive. A listed
    /// position off the board is dropped without effect, and so is a
    /// repetition.
    pub fn from_alive_cells(alive_cells: &[Position]) -> (board: Self)
        ensures
            board@ == seeded(alive_cells@),
            board.wf(),
    {
        let mut conways_grid = Self::empty();
        let mut i: usize = 0;
        assert(conways_grid@ =~~= seeded(alive_cells@.take(0))) by {
            assert(coords(alive_cells@.take(0)).len() == 0);
        }
        while i < alive_cells.len()
            invariant
                i <= alive_cells.len(),
                conways_grid@ == seeded(alive_cells@.take(i as int)),
            decreases alive_cells.len() - i,
        {
            let cell = alive_cells[i];
            conways_grid.modify_cell(cell, CellState::Alive);
            proof {
                lemma_seeded_push(alive_cells@.take(i as int), cell);
                assert(alive_cells@.take(i + 1) =~= alive_cells@.take(i as int).push(cell));
            }
            i += 1;
        }
        assert(alive_cells@.take(i as int) =~= alive_cells@);
        conways_grid
    }

    /// The cell at `pos`, or `None` where the board stores no cell there.
    pub fn cell_at(&self, pos: Position) -> (cell: Option<CellState>)
        ensures
            cell == (if is_stored(self@, pos.0 as int, pos.1 as int) {
                Some(self@[pos.0 as int][pos.1 as int])
            } else {
                None
            }),
    {
        let (row, col) = pos;
        if row < self.grid.len() {
            if col < self.grid[row].len() {
                return Some(self.grid[row][col]);
            }
        }
        None
    }

    /// The clipped Moore neighbourhood of `pos`: the up to eight adjacent
    /// positions that lie on the board, in the order of `offsets()`.
    pub fn get_neighbor_position(&self, pos: Position) -> (neighbors: Vec<Position>)
        ensures
            coords(neighbors@) == neighborhood(pos.0 as int, pos.1 as int),
            neighbors@.len() <= 8,
            forall|i: int|
                0 <= i < neighbors@.len() ==> (#[trigger] neighbors@[i]).0 < ROWS && neighbors@[i].1
                    < COLS,
    {
        let (row, col) = pos;
        let steps: [(isize, isize); 8] = [
            (-1, -1),
            (-1, 0),
            (0, -1),
            (-1, 1),
            (0, 1),
            (1, -1),
            (1, 0),
            (1, 1),
        ];
        let ghost around = surroundings(row as int, col as int);
        let mut neighbors: Vec<Position> = Vec::new();
        let mut k: usize = 0;
        proof {
            reveal(Seq::filter);
            assert(around.take(0).filter(on_board()) =~= coords(neighbors@));
        }
        while k < 8
            invariant
                k <= 8,
                around == surroundings(row as int, col as int),
                forall|j: int|
                    0 <= j < 8 ==> (#[trigger] steps@[j]).0 == offsets()[j].0 && steps@[j].1
                        == offsets()[j].1,
                coords(neighbors@) == around.take(k as int).filter(on_board()),
                neighbors@.len() <= k,
                forall|i: int|
                    0 <= i < neighbors@.len() ==> (#[trigger] neighbors@[i]).0 < ROWS
                        && neighbors@[i].1 < COLS,
            decreases 8 - k,
        {
            let (offset_x, offset_y) = steps[k];
            let new_x = shifted(row, offset_x, ROWS);
            let new_y = shifted(col, offset_y, COLS);
            let ghost listed = neighbors@;
            proof {
                assert(around.take(k + 1) =~= around.take(k as int).push(around[k as int]));
                around.take(k as int).lemma_filter_push(around[k as int], on_board());
            }
            match (new_x, new_y) {
                (Some(x), Some(y)) => {
                    neighbors.push((x, y));
                    assert(coords(neighbors@) =~= coords(listed).push(around[k as int]));
                },
                _ => {},
            }
            k += 1;
        }
        assert(around.take(8) =~= around);
        neighbors
    }

    /// How many of `neighbors` hold a live cell in `previous_grid`. A position
    /// at which `previous_grid` stores no cell counts as not alive.
    pub fn get_alive_count(
        previous_grid: &[Vec<CellState>],
        neighbors: Vec<Position>,
    ) -> (count: usize)
        ensures
            count == alive_among(cells_of(previous_grid@), coords(neighbors@)),
            count <= neighbors@.len(),
    {
        let ghost cells = cells_of(previous_grid@);
        let ghost places = coords(neighbors@);
        let mut count: usize = 0;
        let mut i: usize = 0;
        proof {
            reveal(Seq::filter);
            assert(places.take(0).filter(alive_in(cells)).len() == 0);
        }
        while i < neighbors.len()
            invariant
                i <= neighbors.len(),
                cells == cells_of(previous_grid@),
                places == coords(neighbors@),
                count == alive_among(cells, places.take(i as int)),
                count <= i,
            decreases neighbors.len() - i,
        {
            let (row, col) = neighbors[i];
            proof {
                assert(places.take(i + 1) =~= places.take(i as int).push(places[i as int]));
                places.take(i as int).lemma_filter_push(places[i as int], alive_in(cells));
            }
            if row < previous_grid.len() {
                if col < previous_grid[row].len() {
                    match previous_grid[row][col] {
                        CellState::Alive => {
                            count += 1;
                        },
                        CellState::Dead => {},
                    }
                }
            }
            i += 1;
        }
        assert(places.take(i as int) =~= places);
        count
    }

    /// Advances the board by one generation. Every cell of the board takes
    /// the state that the rule gives it from the neighbours it had before the
    /// call; no cell sees a neighbour's new state.
    pub fn next_iteration(&mut self)
        ensures
            final(self)@ == step(old(self)@),
            old(self).wf() ==> final(self).wf(),
    {
        let previous_grid = self.grid.clone();
        assert(cells_of(previous_grid@) =~~= old(self)@);
        let ghost before = old(self)@;
        for row in 0..ROWS
            invariant
                before == cells_of(previous_grid@),
                same_shape(self@, before),
                forall|r: int, c: int|
                    is_stored(before, r, c) ==> #[trigger] self@[r][c] == (if r < row {
                        step(before)[r][c]
                    } else {
                        before[r][c]
                    }),
        {
            for col in 0..COLS
                invariant
                    row < ROWS,
                    before == cells_of(previous_grid@),
                    same_shape(self@, before),
                    forall|r: int, c: int|
                        is_stored(before, r, c) ==> #[trigger] self@[r][c] == (if r < row || (r
                            == row && c < col) {
                            step(before)[r][c]
                        } else {
                            before[r][c]
                        }),
            {
                let neighbors = self.get_neighbor_position((row, col));
                let alive = Self::get_alive_count(previous_grid.as_slice(), neighbors);
                self.compute_next_state(alive, (row, col));
            }
        }
        assert(self@ =~~= step(before));
    }

    /// Applies the rule to the cell at `pos`, given the number of its live
    /// neighbours. A position at which the board stores no cell is ignored.
    fn compute_next_state(&mut self, alive_count: usize, pos: Position)
        ensures
            final(self)@ == apply_rule(old(self)@, alive_count as nat, pos.0 as int, pos.1 as int),
    {
        let (row, col) = pos;
        if row >= self.grid.len() {
            return;
        }
        if col >= self.grid[row].len() {
            return;
        }
        match self.grid[row][col] {
            CellState::Alive => {
                if !(2 <= alive_count && alive_count <= 3) {
                    self.modify_cell((row, col), CellState::Dead);
                }
            },
            CellState::Dead => {
                if alive_count == 3 {
                    self.modify_cell((row, col), CellState::Alive);
                }
            },
        }
        assert(self@ =~~= apply_rule(old(self)@, alive_count as nat, row as int, col as int));
    }

    /// Sets the cell at `pos` to `new_state`. A position at which the board
    /// stores no cell is ignored.
    fn modify_cell(&mut self, pos: Position, new_state: CellState)
        ensures
            final(self)@ == set_cell(old(self)@, pos.0 as int, pos.1 as int, new_state),
    {
        let (row, col) = pos;
        if row < self.grid.len() {
            if col < self.grid[row].len() {
                self.grid[row][col] = new_state;
                assert(self@ =~= set_cell(old(self)@, row as int, col as int, new_state));
            }
        }
    }
}

/// Two boards store cells at the same places.
spec fn same_shape(a: Cells, b: Cells) -> bool {
    &&& a.len() == b.len()
    &&& forall|row: int| 0 <= row < a.len() ==> (#[trigger] a[row]).len() == b[row].len()
}

/// The index `delta` steps from `index`, where it is below `limit`.
fn shifted(index: usize, delta: isize, limit: usize) -> (landed: Option<usize>)
    requires
        -1 <= delta <= 1,
    ensures
        landed == (if 0 <= index + delta < limit {
            Some((index + delta) as usize)
        } else {
            None
        }),
{
    if delta < 0 {
        if 0 < index && index - 1 < limit {
            Some(index - 1)
        } else {
            None
        }
    } else if delta == 0 {
        if index < limit {
            Some(index)
        } else {
            None
        }
    } else {
        if index < usize::MAX && index + 1 < limit {
            Some(index + 1)
        } else {
            None
        }
    }
}

/// Listing one more position marks that cell alive and changes nothing else.
proof fn lemma_seeded_push(listed: Seq<Position>, added: Position)
    ensures
        seeded(listed.push(added)) == set_cell(
            seeded(listed),
            added.0 as int,
            added.1 as int,
            CellState::Alive,
        ),
{
    let before = coords(listed);
    let after = coords(listed.push(added));
    let place = (added.0 as int, added.1 as int);
    assert(after =~= before.push(place));
    assert forall|p: (int, int)| after.contains(p) <==> (before.contains(p) || p == place) by {
        if before.contains(p) {
            let j = choose|j: int| 0 <= j < before.len() && before[j] == p;
            assert(after[j] == p);
        }
        if p == place {
            assert(after[before.len() as int] == p);
        }
    }
    assert(seeded(listed.push(added)) =~~= set_cell(
        seeded(listed),
        added.0 as int,
        added.1 as int,
        CellState::Alive,
    ));
}

} // verus!
