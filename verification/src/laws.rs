//! Properties of the board model that hold for every board and position.

use vstd::prelude::*;
use crate::board::{
    alive_in, alive_neighbors, coords, in_grid, is_alive, is_stored, neighborhood, on_board,
    seeded, step, surroundings, well_formed, Cells, Coord,
};
use crate::cell::{CellState, Position, COLS, ROWS};
use crate::grid::ConwaysGrid;

verus! {

/// Whether `place` is one of the eight coordinate pairs around (row, col).
pub open spec fn adjacent(place: Coord, row: int, col: int) -> bool {
    &&& row - 1 <= place.0 <= row + 1
    &&& col - 1 <= place.1 <= col + 1
    &&& place != (row, col)
}

/// The live cells of `cells` in the clipped Moore neighbourhood of
/// (row, col), as a set.
pub open spec fn alive_neighbor_set(cells: Cells, row: int, col: int) -> Set<Coord> {
    Set::new(
        |place: Coord|
            adjacent(place, row, col) && in_grid(place.0, place.1) && is_alive(
                cells,
                place.0,
                place.1,
            ),
    )
}

/// One where (row, col) lies on the board, zero otherwise.
spec fn counted(row: int, col: int) -> int {
    if in_grid(row, col) {
        1
    } else {
        0
    }
}

/// The size of the neighbourhood, counted offset by offset.
proof fn lemma_neighborhood_len(row: int, col: int)
    ensures
        neighborhood(row, col).len() == counted(row - 1, col - 1) + counted(row - 1, col)
            + counted(row, col - 1) + counted(row - 1, col + 1) + counted(row, col + 1) + counted(
            row + 1,
            col - 1,
        ) + counted(row + 1, col) + counted(row + 1, col + 1),
{
    let keep = on_board();
    let s0 = Seq::<Coord>::empty();
    let s1 = s0.push((row - 1, col - 1));
    let s2 = s1.push((row - 1, col));
    let s3 = s2.push((row, col - 1));
    let s4 = s3.push((row - 1, col + 1));
    let s5 = s4.push((row, col + 1));
    let s6 = s5.push((row + 1, col - 1));
    let s7 = s6.push((row + 1, col));
    let s8 = s7.push((row + 1, col + 1));
    assert(surroundings(row, col) =~= s8);
    assert(s0.filter(keep).len() == 0) by {
        reveal(Seq::filter);
    }
    s0.lemma_filter_len_push(keep, (row - 1, col - 1));
    s1.lemma_filter_len_push(keep, (row - 1, col));
    s2.lemma_filter_len_push(keep, (row, col - 1));
    s3.lemma_filter_len_push(keep, (row - 1, col + 1));
    s4.lemma_filter_len_push(keep, (row, col + 1));
    s5.lemma_filter_len_push(keep, (row + 1, col - 1));
    s6.lemma_filter_len_push(keep, (row + 1, col));
    s7.lemma_filter_len_push(keep, (row + 1, col + 1));
}

/// Equal boards have equal next generations: the generation that follows a
/// board depends on nothing but the board.
pub proof fn law_step_is_deterministic(first: ConwaysGrid, second: ConwaysGrid)
    requires
        first@ == second@,
    ensures
        step(first@) == step(second@),
{
}

/// A generation step keeps the places at which cells are stored, so a board
/// of `ROWS` rows with `COLS` cells each stays one.
pub proof fn law_step_keeps_shape(cells: Cells)
    ensures
        step(cells).len() == cells.len(),
        forall|row: int| 0 <= row < cells.len() ==> (#[trigger] step(cells)[row]).len() == cells[row].len(),
        well_formed(cells) ==> well_formed(step(cells)),
{
}

/// Filtering keeps exactly the members that meet the predicate, and adds no
/// repetition.
proof fn lemma_filter_members<A>(items: Seq<A>, keep: spec_fn(A) -> bool)
    ensures
        forall|item: A| #[trigger]
            items.filter(keep).contains(item) <==> (items.contains(item) && keep(item)),
        items.no_duplicates() ==> items.filter(keep).no_duplicates(),
    decreases items.len(),
{
    reveal(Seq::filter);
    if items.len() > 0 {
        let front = items.drop_last();
        let last = items.last();
        lemma_filter_members(front, keep);
        front.lemma_filter_push(last, keep);
        assert(front.push(last) =~= items);
        let kept_front = front.filter(keep);
        assert forall|item: A| #[trigger]
            items.filter(keep).contains(item) <==> (items.contains(item) && keep(item)) by {
            if items.contains(item) && keep(item) {
                let at = choose|at: int| 0 <= at < items.len() && items[at] == item;
                if at < front.len() {
                    assert(front[at] == item);
                    assert(kept_front.contains(item));
                    let to = choose|to: int| 0 <= to < kept_front.len() && kept_front[to] == item;
                    assert(items.filter(keep)[to] == item);
                } else {
                    assert(items.filter(keep).last() == item);
                }
            }
            if items.filter(keep).contains(item) {
                let to = choose|to: int|
                    0 <= to < items.filter(keep).len() && items.filter(keep)[to] == item;
                if to < kept_front.len() {
                    assert(kept_front[to] == item);
                    assert(kept_front.contains(item));
                    let at = choose|at: int| 0 <= at < front.len() && front[at] == item;
                    assert(items[at] == item);
                } else {
                    assert(item == last);
                    assert(items[items.len() - 1] == item);
                }
            }
        }
        if items.no_duplicates() {
            assert(front.no_duplicates());
            if keep(last) {
                assert(!front.contains(last)) by {
                    if front.contains(last) {
                        let at = choose|at: int| 0 <= at < front.len() && front[at] == last;
                        assert(items[at] == items[items.len() - 1]);
                    }
                }
                assert(!kept_front.contains(last));
                assert forall|a: int, b: int|
                    0 <= a < items.filter(keep).len() && 0 <= b < items.filter(keep).len() && a
                        != b implies items.filter(keep)[a] != items.filter(keep)[b] by {
                    if a < kept_front.len() && b < kept_front.len() {
                    } else if a < kept_front.len() {
                        assert(kept_front.contains(kept_front[a]));
                    } else {
                        assert(kept_front.contains(kept_front[b]));
                    }
                }
            }
        }
    }
}

/// The eight surrounding coordinate pairs are the adjacent ones, each once.
proof fn lemma_surroundings_are_adjacent(row: int, col: int)
    ensures
        surroundings(row, col).no_duplicates(),
        forall|place: Coord| #[trigger]
            surroundings(row, col).contains(place) <==> adjacent(place, row, col),
{
    let around = surroundings(row, col);
    assert(around[0] == (row - 1, col - 1));
    assert(around[1] == (row - 1, col));
    assert(around[2] == (row, col - 1));
    assert(around[3] == (row - 1, col + 1));
    assert(around[4] == (row, col + 1));
    assert(around[5] == (row + 1, col - 1));
    assert(around[6] == (row + 1, col));
    assert(around[7] == (row + 1, col + 1));
    assert forall|place: Coord| #[trigger] around.contains(place) <==> adjacent(place, row, col) by {
        if adjacent(place, row, col) {
            let k: int = if place == around[0] {
                0
            } else if place == around[1] {
                1
            } else if place == around[2] {
                2
            } else if place == around[3] {
                3
            } else if place == around[4] {
                4
            } else if place == around[5] {
                5
            } else if place == around[6] {
                6
            } else {
                7
            };
            assert(around[k] == place);
        }
    }
}

/// The clipped Moore neighbourhood of (row, col) lists each coordinate pair
/// that is adjacent to (row, col) and lies on the board, once, and nothing
/// else. No listed pair has an index below zero, a row index of `ROWS` or
/// more, or a column index of `COLS` or more.
pub proof fn law_neighborhood_is_clipped_moore(row: int, col: int)
    ensures
        neighborhood(row, col).no_duplicates(),
        forall|place: Coord| #[trigger]
            neighborhood(row, col).contains(place) <==> (adjacent(place, row, col) && in_grid(
                place.0,
                place.1,
            )),
{
    lemma_surroundings_are_adjacent(row, col);
    lemma_filter_members(surroundings(row, col), on_board());
}

/// The number of live neighbours of (row, col) is the number of coordinate
/// pairs that are adjacent to (row, col), lie on the board and hold a live
/// cell. It is at most the size of the neighbourhood, which is at most eight.
pub proof fn law_neighbor_count(cells: Cells, row: int, col: int)
    ensures
        alive_neighbor_set(cells, row, col).finite(),
        alive_neighbors(cells, row, col) == alive_neighbor_set(cells, row, col).len(),
        0 <= alive_neighbors(cells, row, col) <= neighborhood(row, col).len() <= 8,
{
    let hood = neighborhood(row, col);
    let alive = hood.filter(alive_in(cells));
    law_neighborhood_is_clipped_moore(row, col);
    lemma_filter_members(hood, alive_in(cells));
    alive.unique_seq_to_set();
    assert(alive.to_set() =~= alive_neighbor_set(cells, row, col));
    hood.lemma_filter_len(alive_in(cells));
    surroundings(row, col).lemma_filter_len(on_board());
}

/// Whether `index` is the first or the last index below `limit`.
pub open spec fn at_edge(index: int, limit: int) -> bool {
    index == 0 || index == limit - 1
}

/// The number of neighbours of a cell of the board: three in a corner, five
/// elsewhere on an edge, eight everywhere else.
pub open spec fn neighbor_total(row: int, col: int) -> int {
    if at_edge(row, ROWS as int) && at_edge(col, COLS as int) {
        3
    } else if at_edge(row, ROWS as int) || at_edge(col, COLS as int) {
        5
    } else {
        8
    }
}

/// A cell in a corner of the board has three neighbours, another cell on an
/// edge has five, and every other cell of the board has eight.
pub proof fn law_neighborhood_size(row: int, col: int)
    requires
        in_grid(row, col),
    ensures
        neighborhood(row, col).len() == neighbor_total(row, col),
{
    lemma_neighborhood_len(row, col);
}

/// Clipping at the edges: a cell of the board never has more live neighbours
/// than it has neighbours, so a corner cell such as (0, 0) never has more
/// than three.
pub proof fn law_edges_clip_the_count(cells: Cells, row: int, col: int)
    requires
        in_grid(row, col),
    ensures
        alive_neighbors(cells, row, col) <= neighbor_total(row, col),
{
    law_neighborhood_size(row, col);
    law_neighbor_count(cells, row, col);
}

/// A board of `ROWS` rows with `COLS` cells each stores a cell at exactly
/// the positions of the board, so reading a cell of it succeeds there and
/// nowhere else.
pub proof fn law_well_formed_stores_the_board(cells: Cells, row: int, col: int)
    requires
        well_formed(cells),
    ensures
        is_stored(cells, row, col) <==> in_grid(row, col),
{
}

/// Whether `alive_cells` lists the position with coordinates (row, col).
pub open spec fn lists(alive_cells: Seq<Position>, row: int, col: int) -> bool {
    exists|i: int|
        0 <= i < alive_cells.len() && (#[trigger] alive_cells[i]).0 == row && alive_cells[i].1
            == col
}

/// A seeded board has `ROWS` rows of `COLS` cells; a cell of it is alive if
/// its position is listed and dead if it is not.
pub proof fn law_seeded_cells(alive_cells: Seq<Position>, row: int, col: int)
    requires
        in_grid(row, col),
    ensures
        well_formed(seeded(alive_cells)),
        lists(alive_cells, row, col) ==> seeded(alive_cells)[row][col] == CellState::Alive,
        !lists(alive_cells, row, col) ==> seeded(alive_cells)[row][col] == CellState::Dead,
{
    let places = coords(alive_cells);
    if lists(alive_cells, row, col) {
        let i = choose|i: int|
            0 <= i < alive_cells.len() && (#[trigger] alive_cells[i]).0 == row && alive_cells[i].1
                == col;
        assert(places[i] == (row, col));
    }
    if places.contains((row, col)) {
        let i = choose|i: int| 0 <= i < places.len() && places[i] == (row, col);
        assert(alive_cells[i].0 == row && alive_cells[i].1 == col);
    }
}

/// Two lists that name the same positions of the board seed the same board,
/// whatever their order, their repetitions and their positions off the
/// board.
pub proof fn law_seeding_goes_by_board_positions(first: Seq<Position>, second: Seq<Position>)
    requires
        forall|row: int, col: int|
            in_grid(row, col) ==> (lists(first, row, col) <==> lists(second, row, col)),
    ensures
        seeded(first) == seeded(second),
{
    assert forall|row: int, col: int| in_grid(row, col) implies #[trigger] seeded(
        first,
    )[row][col] == seeded(second)[row][col] by {
        law_seeded_cells(first, row, col);
        law_seeded_cells(second, row, col);
    }
    assert(seeded(first) =~~= seeded(second));
}

/// A listed position off the board has no effect: the board seeded without
/// it is the same.
pub proof fn law_off_board_seed_is_dropped(alive_cells: Seq<Position>, at: int)
    requires
        0 <= at < alive_cells.len(),
        !in_grid(alive_cells[at].0 as int, alive_cells[at].1 as int),
    ensures
        seeded(alive_cells.remove(at)) == seeded(alive_cells),
{
    let rest = alive_cells.remove(at);
    assert forall|row: int, col: int| in_grid(row, col) implies (lists(rest, row, col) <==> lists(
        alive_cells,
        row,
        col,
    )) by {
        if lists(rest, row, col) {
            let i = choose|i: int|
                0 <= i < rest.len() && (#[trigger] rest[i]).0 == row && rest[i].1 == col;
            let j = if i < at { i } else { i + 1 };
            assert(alive_cells[j].0 == row && alive_cells[j].1 == col);
        }
        if lists(alive_cells, row, col) {
            let j = choose|j: int|
                0 <= j < alive_cells.len() && (#[trigger] alive_cells[j]).0 == row
                    && alive_cells[j].1 == col;
            let i = if j < at { j } else { j - 1 };
            assert(rest[i].0 == row && rest[i].1 == col);
        }
    }
    law_seeding_goes_by_board_positions(rest, alive_cells);
}

} // verus!
