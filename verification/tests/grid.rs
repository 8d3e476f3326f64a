use game_of_life::grid::Grid;
use game_of_life::grid::GridError;

fn grid_from(rows: &[&str]) -> Grid {
    let mut grid = Grid::new(rows[0].len(), rows.len()).unwrap();
    for (y, row) in rows.iter().enumerate() {
        for (x, ch) in row.chars().enumerate() {
            if ch == '#' {
                grid.set_alive(x, y);
            }
        }
    }
    grid
}

fn picture(grid: &Grid) -> Vec<String> {
    let mut rows = Vec::new();
    for y in 0..grid.height() {
        let mut row = String::new();
        for x in 0..grid.width() {
            row.push(if grid.is_alive(x, y) { '#' } else { '.' });
        }
        rows.push(row);
    }
    rows
}

#[test]
fn new_grid_is_all_dead() {
    let grid = Grid::new(4, 3).unwrap();
    assert_eq!(grid.width(), 4);
    assert_eq!(grid.height(), 3);
    assert_eq!(picture(&grid), vec!["....", "....", "...."]);
    for y in 0..3 {
        for x in 0..4 {
            let cell = grid.cell(x, y);
            assert!(!cell.current_state);
            assert!(!cell.next_state);
            assert_eq!(grid.count_live_neighbors(x, y), 0);
        }
    }
}

#[test]
fn new_refuses_zero_width() {
    assert!(matches!(Grid::new(0, 5), Err(GridError::ZeroWidth)));
}

#[test]
fn new_refuses_zero_height() {
    assert!(matches!(Grid::new(5, 0), Err(GridError::ZeroHeight)));
}

#[test]
fn new_reports_the_width_when_both_are_zero() {
    assert!(matches!(Grid::new(0, 0), Err(GridError::ZeroWidth)));
}

#[test]
fn one_by_one_grid_is_accepted() {
    let mut grid = Grid::new(1, 1).unwrap();
    assert_eq!(grid.count_live_neighbors(0, 0), 0);
    grid.set_alive(0, 0);
    assert_eq!(grid.count_live_neighbors(0, 0), 0);
    grid.step();
    assert!(!grid.is_alive(0, 0));
}

#[test]
fn contains_tells_cells_from_other_coordinates() {
    let grid = Grid::new(4, 3).unwrap();
    assert!(grid.contains(0, 0));
    assert!(grid.contains(3, 2));
    assert!(!grid.contains(4, 2));
    assert!(!grid.contains(3, 3));
    assert!(!grid.contains(usize::MAX, 0));
}

#[test]
fn neighbor_count_has_no_wraparound() {
    let grid = grid_from(&["###", "###", "###"]);
    assert_eq!(grid.count_live_neighbors(0, 0), 3);
    assert_eq!(grid.count_live_neighbors(2, 0), 3);
    assert_eq!(grid.count_live_neighbors(0, 2), 3);
    assert_eq!(grid.count_live_neighbors(2, 2), 3);
    assert_eq!(grid.count_live_neighbors(1, 0), 5);
    assert_eq!(grid.count_live_neighbors(0, 1), 5);
    assert_eq!(grid.count_live_neighbors(2, 1), 5);
    assert_eq!(grid.count_live_neighbors(1, 2), 5);
    assert_eq!(grid.count_live_neighbors(1, 1), 8);
}

#[test]
fn neighbor_count_leaves_out_the_cell_itself() {
    let grid = grid_from(&["...", ".#.", "..."]);
    assert_eq!(grid.count_live_neighbors(1, 1), 0);
    for (x, y) in [(0, 0), (1, 0), (2, 0), (0, 1), (2, 1), (0, 2), (1, 2), (2, 2)] {
        assert_eq!(grid.count_live_neighbors(x, y), 1);
    }
}

#[test]
fn neighbor_count_sees_each_of_the_eight_positions() {
    for (x, y) in [(0, 0), (1, 0), (2, 0), (0, 1), (2, 1), (0, 2), (1, 2), (2, 2)] {
        let mut grid = Grid::new(3, 3).unwrap();
        grid.set_alive(x, y);
        assert_eq!(grid.count_live_neighbors(1, 1), 1, "neighbour at ({}, {})", x, y);
    }
}

#[test]
fn neighbor_count_does_not_reach_the_far_edge() {
    let grid = grid_from(&["#...", "....", "....", "...#"]);
    assert_eq!(grid.count_live_neighbors(3, 0), 0);
    assert_eq!(grid.count_live_neighbors(0, 3), 0);
    assert_eq!(grid.count_live_neighbors(3, 1), 0);
    assert_eq!(grid.count_live_neighbors(0, 2), 0);
}

#[test]
fn blinker_oscillates_with_period_two() {
    let mut grid = grid_from(&["...", "###", "..."]);
    grid.step();
    assert_eq!(picture(&grid), vec![".#.", ".#.", ".#."]);
    grid.step();
    assert_eq!(picture(&grid), vec!["...", "###", "..."]);
}

#[test]
fn isolated_cell_dies() {
    let mut grid = grid_from(&["...", ".#.", "..."]);
    assert_eq!(grid.count_live_neighbors(1, 1), 0);
    grid.step();
    assert_eq!(picture(&grid), vec!["...", "...", "..."]);
}

#[test]
fn block_is_a_still_life() {
    let mut grid = grid_from(&["....", ".##.", ".##.", "...."]);
    for (x, y) in [(1, 1), (2, 1), (1, 2), (2, 2)] {
        assert_eq!(grid.count_live_neighbors(x, y), 3);
    }
    for _ in 0..10 {
        grid.step();
        assert_eq!(picture(&grid), vec!["....", ".##.", ".##.", "...."]);
    }
}

#[test]
fn block_in_a_corner_is_a_still_life() {
    let mut grid = grid_from(&["##", "##"]);
    for _ in 0..5 {
        grid.step();
        assert_eq!(picture(&grid), vec!["##", "##"]);
    }
}

#[test]
fn step_judges_every_cell_against_the_same_generation() {
    let mut grid = grid_from(&[".#...", "..#..", "###..", ".....", "....."]);
    grid.step();
    assert_eq!(picture(&grid), vec![".....", "#.#..", ".##..", ".#...", "....."]);
    grid.step();
    assert_eq!(picture(&grid), vec![".....", "..#..", "#.#..", ".##..", "....."]);
}

#[test]
fn crowded_cell_dies() {
    let mut grid = grid_from(&["###", "###", "###"]);
    grid.step();
    assert_eq!(picture(&grid), vec!["#.#", "...", "#.#"]);
}

#[test]
fn step_keeps_the_dimensions() {
    let mut grid = grid_from(&["#.#.#", ".#.#."]);
    grid.step();
    assert_eq!(grid.width(), 5);
    assert_eq!(grid.height(), 2);
}

#[test]
fn step_leaves_the_committed_state_staged() {
    let mut grid = grid_from(&["...", "###", "..."]);
    grid.step();
    for y in 0..3 {
        for x in 0..3 {
            let cell = grid.cell(x, y);
            assert_eq!(cell.next_state, cell.current_state);
            assert_eq!(cell.current_state, x == 1);
        }
    }
}

#[test]
fn set_alive_is_seen_by_the_next_count() {
    let mut grid = Grid::new(3, 3).unwrap();
    assert_eq!(grid.count_live_neighbors(1, 1), 0);
    grid.set_alive(0, 0);
    assert!(grid.is_alive(0, 0));
    assert_eq!(grid.count_live_neighbors(1, 1), 1);
    assert_eq!(grid.count_live_neighbors(1, 0), 1);
    assert_eq!(grid.count_live_neighbors(0, 1), 1);
    assert_eq!(grid.count_live_neighbors(2, 2), 0);
    grid.set_alive(0, 0);
    assert_eq!(grid.count_live_neighbors(1, 1), 1);
}

#[test]
fn set_dead_is_seen_by_the_next_count() {
    let mut grid = grid_from(&["##.", "...", "..."]);
    assert_eq!(grid.count_live_neighbors(1, 1), 2);
    grid.set_dead(0, 0);
    assert!(!grid.is_alive(0, 0));
    assert_eq!(grid.count_live_neighbors(1, 1), 1);
    grid.set_dead(0, 0);
    assert_eq!(grid.count_live_neighbors(1, 1), 1);
}

#[test]
fn edits_touch_one_cell_and_no_staged_value() {
    let mut grid = grid_from(&["...", "###", "..."]);
    grid.step();
    let mut staged = Vec::new();
    for y in 0..3 {
        for x in 0..3 {
            staged.push(grid.cell(x, y).next_state);
        }
    }
    grid.set_alive(0, 0);
    grid.set_dead(1, 1);
    assert_eq!(picture(&grid), vec!["##.", "...", ".#."]);
    let mut after = Vec::new();
    for y in 0..3 {
        for x in 0..3 {
            after.push(grid.cell(x, y).next_state);
        }
    }
    assert_eq!(after, staged);
    assert_eq!(
        staged,
        vec![false, true, false, false, true, false, false, true, false]
    );
}

#[test]
fn edits_do_not_advance_the_generation() {
    let mut grid = grid_from(&["...", "###", "..."]);
    grid.set_alive(1, 0);
    assert_eq!(picture(&grid), vec![".#.", "###", "..."]);
    grid.set_dead(1, 0);
    assert_eq!(picture(&grid), vec!["...", "###", "..."]);
}
