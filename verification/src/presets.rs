//! The starting patterns that a front end offers for selection.

use vstd::prelude::*;
use crate::board::in_grid;
use crate::cell::Position;

verus! {

/// The number of starting patterns.
pub const PRESET_COUNT: usize = 5;

/// The live cells of starting pattern `index`; no cells for an index that
/// names no pattern.
pub open spec fn preset_cells(index: int) -> Seq<Position> {
    if index == 0 {
        seq![
            (1usize, 1usize), (1usize, 2usize), (2usize, 1usize), (2usize, 3usize), (3usize, 2usize),
            (6usize, 6usize), (6usize, 7usize), (7usize, 6usize), (7usize, 8usize), (8usize, 7usize),
            (11usize, 11usize), (11usize, 12usize), (12usize, 11usize), (12usize, 13usize), (13usize, 12usize),
            (16usize, 16usize), (16usize, 17usize), (17usize, 16usize), (17usize, 18usize), (18usize, 17usize),
            (21usize, 21usize), (21usize, 22usize), (22usize, 21usize), (22usize, 23usize), (23usize, 22usize),
            (26usize, 26usize), (26usize, 27usize), (27usize, 26usize), (27usize, 28usize), (28usize, 27usize),
        ]
    } else if index == 1 {
        seq![
            (1usize, 1usize), (1usize, 2usize), (2usize, 1usize), (2usize, 2usize),
            (16usize, 16usize), (16usize, 17usize), (17usize, 16usize), (17usize, 17usize),
            (5usize, 5usize), (5usize, 6usize), (5usize, 7usize),
        ]
    } else if index == 2 {
        seq![
            (1usize, 3usize), (2usize, 1usize), (2usize, 4usize), (3usize, 1usize), (3usize, 4usize),
            (4usize, 1usize),
        ]
    } else if index == 3 {
        seq![(1usize, 3usize), (2usize, 1usize), (2usize, 3usize), (3usize, 2usize), (3usize, 3usize)]
    } else if index == 4 {
        seq![
            (3usize, 5usize), (3usize, 6usize), (3usize, 7usize),
            (5usize, 3usize), (5usize, 9usize), (6usize, 3usize), (6usize, 9usize), (7usize, 3usize), (7usize, 9usize),
            (9usize, 5usize), (9usize, 6usize), (9usize, 7usize),
        ]
    } else {
        Seq::empty()
    }
}

/// The live cells of starting pattern `index`, or `None` where `index` names
/// no pattern.
pub fn preset(index: usize) -> (cells: Option<Vec<Position>>)
    ensures
        index < PRESET_COUNT ==> cells.is_some() && cells.unwrap()@ == preset_cells(index as int),
        index >= PRESET_COUNT ==> cells.is_none(),
{
    let cells: Vec<Position> = if index == 0 {
        vec![
            (1, 1), (1, 2), (2, 1), (2, 3), (3, 2),
            (6, 6), (6, 7), (7, 6), (7, 8), (8, 7),
            (11, 11), (11, 12), (12, 11), (12, 13), (13, 12),
            (16, 16), (16, 17), (17, 16), (17, 18), (18, 17),
            (21, 21), (21, 22), (22, 21), (22, 23), (23, 22),
            (26, 26), (26, 27), (27, 26), (27, 28), (28, 27),
        ]
    } else if index == 1 {
        vec![
            (1, 1), (1, 2), (2, 1), (2, 2),
            (16, 16), (16, 17), (17, 16), (17, 17),
            (5, 5), (5, 6), (5, 7),
        ]
    } else if index == 2 {
        vec![(1, 3), (2, 1), (2, 4), (3, 1), (3, 4), (4, 1)]
    } else if index == 3 {
        vec![(1, 3), (2, 1), (2, 3), (3, 2), (3, 3)]
    } else if index == 4 {
        vec![
            (3, 5), (3, 6), (3, 7),
            (5, 3), (5, 9), (6, 3), (6, 9), (7, 3), (7, 9),
            (9, 5), (9, 6), (9, 7),
        ]
    } else {
        return None;
    };
    assert(cells@ =~= preset_cells(index as int));
    Some(cells)
}

/// Every cell of every starting pattern lies on the board, and no pattern
/// lists a cell twice.
pub proof fn law_presets_fit_the_board(index: int)
    ensures
        preset_cells(index).no_duplicates(),
        forall|i: int|
            0 <= i < preset_cells(index).len() ==> in_grid(
                (#[trigger] preset_cells(index)[i]).0 as int,
                preset_cells(index)[i].1 as int,
            ),
{
}

} // verus!
