use conways::presets::{preset, PRESET_COUNT};
use conways::{CellState, ConwaysGrid, Position, COLS, ROWS};

fn alive_positions(grid: &ConwaysGrid) -> Vec<Position> {
    let mut alive = Vec::new();
    for row in 0..ROWS {
        for col in 0..COLS {
            if grid.cell_at((row, col)) == Some(CellState::Alive) {
                alive.push((row, col));
            }
        }
    }
    alive
}

fn alive_around(grid: &ConwaysGrid, pos: Position) -> usize {
    ConwaysGrid::get_alive_count(&grid.grid, grid.get_neighbor_position(pos))
}

#[test]
fn dimensions_are_thirty_two_square() {
    assert_eq!(ROWS, 32);
    assert_eq!(COLS, 32);
}

#[test]
fn empty_board_is_all_dead() {
    let grid = ConwaysGrid::empty();
    assert_eq!(grid.grid.len(), ROWS);
    for row in &grid.grid {
        assert_eq!(row.len(), COLS);
        assert!(row.iter().all(|cell| *cell == CellState::Dead));
    }
    assert!(alive_positions(&grid).is_empty());
}

#[test]
fn default_board_is_empty() {
    let grid = ConwaysGrid::default();
    assert_eq!(grid.grid, ConwaysGrid::empty().grid);
    assert_eq!(grid.grid.len(), 32);
}

#[test]
fn empty_board_stays_empty() {
    let mut grid = ConwaysGrid::empty();
    grid.next_iteration();
    assert_eq!(grid.grid, ConwaysGrid::empty().grid);
}

#[test]
fn cell_at_reads_cells_and_rejects_positions_off_the_board() {
    let grid = ConwaysGrid::from_alive_cells(&[(3, 4)]);
    assert_eq!(grid.cell_at((3, 4)), Some(CellState::Alive));
    assert_eq!(grid.cell_at((4, 3)), Some(CellState::Dead));
    assert_eq!(grid.cell_at((31, 31)), Some(CellState::Dead));
    assert_eq!(grid.cell_at((32, 0)), None);
    assert_eq!(grid.cell_at((0, 32)), None);
    assert_eq!(grid.cell_at((usize::MAX, usize::MAX)), None);
}

#[test]
fn seeding_round_trip() {
    let listed: Vec<Position> = vec![(0, 0), (5, 7), (31, 31), (7, 5), (0, 31)];
    let grid = ConwaysGrid::from_alive_cells(&listed);
    for row in 0..ROWS {
        for col in 0..COLS {
            let expected = if listed.contains(&(row, col)) {
                CellState::Alive
            } else {
                CellState::Dead
            };
            assert_eq!(grid.cell_at((row, col)), Some(expected));
        }
    }
    assert_eq!(alive_positions(&grid), vec![(0, 0), (0, 31), (5, 7), (7, 5), (31, 31)]);
}

#[test]
fn seeding_drops_positions_off_the_board() {
    let with = ConwaysGrid::from_alive_cells(&[(2, 2), (ROWS, 0), (0, COLS), (usize::MAX, 3)]);
    let without = ConwaysGrid::from_alive_cells(&[(2, 2)]);
    assert_eq!(with.grid, without.grid);
    assert_eq!(alive_positions(&with), vec![(2, 2)]);
    assert_eq!(with.grid.len(), ROWS);
    assert!(with.grid.iter().all(|row| row.len() == COLS));
}

#[test]
fn seeding_ignores_order_and_repeats() {
    let first = ConwaysGrid::from_alive_cells(&[(1, 2), (3, 4), (1, 2), (9, 9)]);
    let second = ConwaysGrid::from_alive_cells(&[(9, 9), (3, 4), (1, 2)]);
    assert_eq!(first.grid, second.grid);
    assert_eq!(alive_positions(&first), vec![(1, 2), (3, 4), (9, 9)]);
}

#[test]
fn seeding_nothing_gives_the_empty_board() {
    let grid = ConwaysGrid::from_alive_cells(&[]);
    assert_eq!(grid.grid, ConwaysGrid::empty().grid);
}

#[test]
fn neighbors_of_an_interior_cell() {
    let grid = ConwaysGrid::empty();
    assert_eq!(
        grid.get_neighbor_position((5, 9)),
        vec![(4, 8), (4, 9), (5, 8), (4, 10), (5, 10), (6, 8), (6, 9), (6, 10)]
    );
}

#[test]
fn neighbors_of_the_corners() {
    let grid = ConwaysGrid::empty();
    assert_eq!(grid.get_neighbor_position((0, 0)), vec![(0, 1), (1, 0), (1, 1)]);
    assert_eq!(grid.get_neighbor_position((0, 31)), vec![(0, 30), (1, 30), (1, 31)]);
    assert_eq!(grid.get_neighbor_position((31, 0)), vec![(30, 0), (30, 1), (31, 1)]);
    assert_eq!(grid.get_neighbor_position((31, 31)), vec![(30, 30), (30, 31), (31, 30)]);
}

#[test]
fn neighbors_of_edge_cells() {
    let grid = ConwaysGrid::empty();
    assert_eq!(
        grid.get_neighbor_position((0, 4)),
        vec![(0, 3), (0, 5), (1, 3), (1, 4), (1, 5)]
    );
    assert_eq!(
        grid.get_neighbor_position((7, 31)),
        vec![(6, 30), (6, 31), (7, 30), (8, 30), (8, 31)]
    );
}

#[test]
fn neighbors_never_leave_the_board() {
    let grid = ConwaysGrid::empty();
    for row in 0..ROWS {
        for col in 0..COLS {
            let neighbors = grid.get_neighbor_position((row, col));
            let row_edge = row == 0 || row == ROWS - 1;
            let col_edge = col == 0 || col == COLS - 1;
            let expected = if row_edge && col_edge {
                3
            } else if row_edge || col_edge {
                5
            } else {
                8
            };
            assert_eq!(neighbors.len(), expected);
            for (r, c) in neighbors {
                assert!(r < ROWS && c < COLS);
                assert!((r, c) != (row, col));
                assert!(r + 1 >= row && r <= row + 1);
                assert!(c + 1 >= col && c <= col + 1);
            }
        }
    }
}

#[test]
fn neighbors_of_positions_off_the_board() {
    let grid = ConwaysGrid::empty();
    assert_eq!(grid.get_neighbor_position((32, 0)), vec![(31, 0), (31, 1)]);
    assert_eq!(grid.get_neighbor_position((32, 32)), vec![(31, 31)]);
    assert_eq!(grid.get_neighbor_position((33, 5)), Vec::<Position>::new());
    assert_eq!(grid.get_neighbor_position((usize::MAX, 0)), Vec::<Position>::new());
    assert_eq!(grid.get_neighbor_position((0, usize::MAX)), Vec::<Position>::new());
}

#[test]
fn alive_count_counts_listed_live_cells() {
    let grid = ConwaysGrid::from_alive_cells(&[(1, 1), (1, 2), (2, 2)]);
    assert_eq!(ConwaysGrid::get_alive_count(&grid.grid, vec![]), 0);
    assert_eq!(ConwaysGrid::get_alive_count(&grid.grid, vec![(1, 1), (0, 0), (2, 2)]), 2);
    assert_eq!(ConwaysGrid::get_alive_count(&grid.grid, vec![(1, 1), (1, 1)]), 2);
    assert_eq!(ConwaysGrid::get_alive_count(&grid.grid, vec![(40, 1), (1, 40), (1, 2)]), 1);
}

#[test]
fn alive_count_on_rows_of_any_length() {
    let rows = vec![vec![CellState::Alive], vec![], vec![CellState::Dead, CellState::Alive]];
    assert_eq!(
        ConwaysGrid::get_alive_count(&rows, vec![(0, 0), (0, 1), (1, 0), (2, 0), (2, 1), (3, 0)]),
        2
    );
}

#[test]
fn neighbor_counts_of_the_named_shapes() {
    let single = ConwaysGrid::from_alive_cells(&[(1, 1)]);
    assert_eq!(alive_around(&single, (1, 1)), 0);
    let triple = ConwaysGrid::from_alive_cells(&[(1, 1), (1, 2), (1, 3)]);
    assert_eq!(alive_around(&triple, (1, 2)), 2);
    let plus = ConwaysGrid::from_alive_cells(&[(1, 1), (2, 0), (2, 1), (2, 2), (3, 1)]);
    assert_eq!(alive_around(&plus, (2, 1)), 4);
    let ell = ConwaysGrid::from_alive_cells(&[(1, 1), (1, 2), (2, 1)]);
    assert_eq!(alive_around(&ell, (2, 2)), 3);
}

#[test]
fn neighbor_count_is_at_most_eight() {
    let mut all: Vec<Position> = Vec::new();
    for row in 0..ROWS {
        for col in 0..COLS {
            all.push((row, col));
        }
    }
    let full = ConwaysGrid::from_alive_cells(&all);
    assert_eq!(alive_around(&full, (10, 10)), 8);
    assert_eq!(alive_around(&full, (0, 10)), 5);
    assert_eq!(alive_around(&full, (0, 0)), 3);
    assert_eq!(alive_around(&full, (31, 31)), 3);
}

#[test]
fn full_board_keeps_only_its_corners() {
    let mut all: Vec<Position> = Vec::new();
    for row in 0..ROWS {
        for col in 0..COLS {
            all.push((row, col));
        }
    }
    let mut full = ConwaysGrid::from_alive_cells(&all);
    full.next_iteration();
    assert_eq!(alive_positions(&full), vec![(0, 0), (0, 31), (31, 0), (31, 31)]);
}

#[test]
fn blinker_turns_and_turns_back() {
    let mut grid = ConwaysGrid::from_alive_cells(&[(1, 1), (1, 2), (1, 3)]);
    grid.next_iteration();
    assert_eq!(alive_positions(&grid), vec![(0, 2), (1, 2), (2, 2)]);
    grid.next_iteration();
    assert_eq!(alive_positions(&grid), vec![(1, 1), (1, 2), (1, 3)]);
}

#[test]
fn block_is_still() {
    let mut grid = ConwaysGrid::from_alive_cells(&[(4, 4), (4, 5), (5, 4), (5, 5)]);
    grid.next_iteration();
    assert_eq!(alive_positions(&grid), vec![(4, 4), (4, 5), (5, 4), (5, 5)]);
}

#[test]
fn glider_moves_one_step_in_four_generations() {
    let mut grid = ConwaysGrid::from_alive_cells(&[(1, 2), (2, 3), (3, 1), (3, 2), (3, 3)]);
    grid.next_iteration();
    assert_eq!(alive_positions(&grid), vec![(2, 1), (2, 3), (3, 2), (3, 3), (4, 2)]);
    grid.next_iteration();
    grid.next_iteration();
    grid.next_iteration();
    assert_eq!(alive_positions(&grid), vec![(2, 3), (3, 4), (4, 2), (4, 3), (4, 4)]);
}

#[test]
fn blinker_on_the_edge_does_not_wrap() {
    let mut grid = ConwaysGrid::from_alive_cells(&[(0, 0), (0, 1), (0, 2)]);
    grid.next_iteration();
    assert_eq!(alive_positions(&grid), vec![(0, 1), (1, 1)]);
    let mut right = ConwaysGrid::from_alive_cells(&[(5, 31), (6, 31), (7, 31)]);
    right.next_iteration();
    assert_eq!(alive_positions(&right), vec![(6, 30), (6, 31)]);
}

#[test]
fn advancing_equal_boards_gives_equal_boards() {
    let seed: Vec<Position> = vec![(1, 3), (2, 1), (2, 3), (3, 2), (3, 3), (31, 0), (31, 1), (30, 0)];
    let mut first = ConwaysGrid::from_alive_cells(&seed);
    let mut second = ConwaysGrid::from_alive_cells(&seed);
    for _ in 0..10 {
        first.next_iteration();
        second.next_iteration();
        assert_eq!(first.grid, second.grid);
    }
}

#[test]
fn advancing_keeps_the_dimensions() {
    let mut grid = ConwaysGrid::from_alive_cells(&[(0, 0), (0, 1), (1, 0), (31, 31)]);
    for _ in 0..5 {
        grid.next_iteration();
        assert_eq!(grid.grid.len(), ROWS);
        assert!(grid.grid.iter().all(|row| row.len() == COLS));
    }
}

#[test]
fn advancing_a_ragged_board_keeps_its_shape() {
    let mut grid = ConwaysGrid {
        grid: vec![
            vec![CellState::Alive, CellState::Alive],
            vec![CellState::Alive],
            vec![],
            vec![CellState::Alive, CellState::Dead, CellState::Dead],
        ],
    };
    grid.next_iteration();
    assert_eq!(
        grid.grid,
        vec![
            vec![CellState::Alive, CellState::Alive],
            vec![CellState::Alive],
            vec![],
            vec![CellState::Dead, CellState::Dead, CellState::Dead],
        ]
    );
    assert_eq!(grid.cell_at((2, 0)), None);
    assert_eq!(grid.cell_at((1, 1)), None);
}

#[test]
fn presets_are_the_five_patterns() {
    assert_eq!(PRESET_COUNT, 5);
    let sizes: Vec<usize> = (0..PRESET_COUNT).map(|i| preset(i).unwrap().len()).collect();
    assert_eq!(sizes, vec![30, 11, 6, 5, 12]);
    assert_eq!(preset(3), Some(vec![(1, 3), (2, 1), (2, 3), (3, 2), (3, 3)]));
    assert_eq!(preset(2), Some(vec![(1, 3), (2, 1), (2, 4), (3, 1), (3, 4), (4, 1)]));
    assert_eq!(preset(5), None);
    assert_eq!(preset(usize::MAX), None);
}

#[test]
fn presets_fit_the_board() {
    for index in 0..PRESET_COUNT {
        let cells = preset(index).unwrap();
        let grid = ConwaysGrid::from_alive_cells(&cells);
        assert_eq!(alive_positions(&grid).len(), cells.len());
        assert!(cells.iter().all(|&(row, col)| row < ROWS && col < COLS));
    }
}
