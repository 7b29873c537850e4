use game_of_life::Universe;

fn universe(width: u32, height: u32, alive: &[(u32, u32)]) -> Universe {
    let mut universe = Universe::new();
    universe.set_width(width);
    universe.set_height(height);
    universe.set_cells(alive);
    universe
}

fn snapshot(universe: &Universe) -> Vec<bool> {
    let size = (universe.width() * universe.height()) as usize;
    (0..size).map(|i| universe.get_cells().contains(i)).collect()
}

fn live_cells(universe: &Universe) -> Vec<(u32, u32)> {
    let mut live = Vec::new();
    for row in 0..universe.height() {
        for col in 0..universe.width() {
            if universe.get_cells().contains((row * universe.width() + col) as usize) {
                live.push((row, col));
            }
        }
    }
    live
}

fn draws(count: usize, mut state: u64) -> Vec<bool> {
    let mut out = Vec::with_capacity(count);
    for _ in 0..count {
        state = state.wrapping_mul(6364136223846793005).wrapping_add(1442695040888963407);
        out.push((state >> 33) & 1 == 1);
    }
    out
}

/// The number of live neighbors, counted over the three row offsets and the
/// three column offsets, the pair of two zero offsets left out.
fn neighbors(width: u32, height: u32, cells: &[bool], row: u32, col: u32) -> u8 {
    let mut count = 0;
    for delta_row in [height - 1, 0, 1] {
        for delta_col in [width - 1, 0, 1] {
            if delta_row == 0 && delta_col == 0 {
                continue;
            }
            let neighbor_row = (row + delta_row) % height;
            let neighbor_col = (col + delta_col) % width;
            if cells[(neighbor_row * width + neighbor_col) as usize] {
                count += 1;
            }
        }
    }
    count
}

fn next_generation(width: u32, height: u32, cells: &[bool]) -> Vec<bool> {
    let mut next = cells.to_vec();
    for row in 0..height {
        for col in 0..width {
            let index = (row * width + col) as usize;
            let count = neighbors(width, height, cells, row, col);
            next[index] = if cells[index] { count == 2 || count == 3 } else { count == 3 };
        }
    }
    next
}

#[test]
fn a_live_cell_with_fewer_than_two_neighbors_dies() {
    let mut lonely = universe(5, 5, &[(2, 2)]);
    lonely.tick();
    assert_eq!(live_cells(&lonely), vec![]);
    let mut pair = universe(5, 5, &[(2, 2), (2, 3)]);
    pair.tick();
    assert_eq!(live_cells(&pair), vec![]);
}

#[test]
fn a_live_cell_with_two_or_three_neighbors_lives_on() {
    // The middle of a diagonal of three has two neighbors, its ends one.
    let mut diagonal = universe(6, 6, &[(1, 1), (2, 2), (3, 3)]);
    diagonal.tick();
    assert_eq!(live_cells(&diagonal), vec![(2, 2)]);
    // In an L of three plus the corner each live cell has three neighbors.
    let mut block = universe(6, 6, &[(1, 1), (1, 2), (2, 1), (2, 2)]);
    block.tick();
    assert_eq!(live_cells(&block), vec![(1, 1), (1, 2), (2, 1), (2, 2)]);
}

#[test]
fn a_live_cell_with_more_than_three_neighbors_dies() {
    // A plus sign: the middle has four neighbors.
    let mut plus = universe(7, 7, &[(2, 3), (3, 2), (3, 3), (3, 4), (4, 3)]);
    plus.tick();
    let after = live_cells(&plus);
    assert!(!after.contains(&(3, 3)));
    assert_eq!(
        after,
        vec![(2, 2), (2, 3), (2, 4), (3, 2), (3, 4), (4, 2), (4, 3), (4, 4)]
    );
}

#[test]
fn a_dead_cell_with_exactly_three_neighbors_comes_alive() {
    let mut corner = universe(6, 6, &[(1, 1), (1, 2), (2, 1)]);
    corner.tick();
    assert_eq!(live_cells(&corner), vec![(1, 1), (1, 2), (2, 1), (2, 2)]);
}

#[test]
fn a_dead_cell_with_two_or_four_neighbors_stays_dead() {
    // (2, 2) lies between two live cells; (4, 4) between four.
    let mut board = universe(8, 8, &[(2, 1), (2, 3), (3, 4), (5, 4), (4, 3), (4, 5)]);
    board.tick();
    let after = live_cells(&board);
    assert!(!after.contains(&(2, 2)));
    assert!(!after.contains(&(4, 4)));
}

#[test]
fn every_cell_is_judged_on_the_previous_generation() {
    // A row of three: were the first cell updated before the second was
    // judged, the middle would die.
    let mut row = universe(5, 5, &[(2, 1), (2, 2), (2, 3)]);
    row.tick();
    assert_eq!(live_cells(&row), vec![(1, 2), (2, 2), (3, 2)]);
}

#[test]
fn an_all_dead_board_stays_all_dead() {
    let mut board = universe(4, 4, &[]);
    board.tick();
    assert_eq!(snapshot(&board), vec![false; 16]);
    for _ in 0..10 {
        board.tick();
    }
    assert_eq!(snapshot(&board), vec![false; 16]);
    assert_eq!(board.width(), 4);
    assert_eq!(board.height(), 4);
}

#[test]
fn neighbors_wrap_around_the_edges() {
    // Three cells in the corners of a 5 by 5 board are neighbors of (0, 0).
    let mut board = universe(5, 5, &[(4, 4), (0, 4), (4, 0)]);
    board.tick();
    assert_eq!(live_cells(&board), vec![(0, 0), (0, 4), (4, 0), (4, 4)]);
}

#[test]
fn a_glider_moves_one_cell_down_and_right_in_four_generations() {
    let mut board = universe(8, 8, &[(0, 1), (1, 2), (2, 0), (2, 1), (2, 2)]);
    for _ in 0..4 {
        board.tick();
    }
    assert_eq!(live_cells(&board), vec![(1, 2), (2, 3), (3, 1), (3, 2), (3, 3)]);
    // After 32 generations it is back where it began, around the torus.
    for _ in 0..28 {
        board.tick();
    }
    assert_eq!(live_cells(&board), vec![(0, 1), (1, 2), (2, 0), (2, 1), (2, 2)]);
}

#[test]
fn tick_on_the_seed_matches_the_rule() {
    let mut board = Universe::new();
    let mut expected = snapshot(&board);
    for _ in 0..5 {
        board.tick();
        expected = next_generation(64, 64, &expected);
        assert_eq!(snapshot(&board), expected);
    }
    assert_eq!(board.width(), 64);
    assert_eq!(board.height(), 64);
}

#[test]
fn tick_on_drawn_boards_matches_the_rule() {
    for (width, height, seed) in [(7u32, 5u32, 3u64), (5, 7, 4), (3, 3, 5), (16, 9, 6), (33, 2, 8)] {
        let mut board = universe(width, height, &[]);
        let mut expected = draws((width * height) as usize, seed);
        board.randomize(&expected);
        for _ in 0..6 {
            board.tick();
            expected = next_generation(width, height, &expected);
            assert_eq!(snapshot(&board), expected);
        }
    }
}

#[test]
fn tick_on_boards_of_one_or_two_rows_or_columns() {
    // On such boards an offset can fall on the cell itself or reach one
    // neighbor twice.
    for (width, height, seed) in
        [(1u32, 1u32, 1u64), (1, 6, 2), (6, 1, 3), (2, 2, 4), (2, 5, 5), (5, 2, 6), (1, 2, 7)]
    {
        for round in 0..4u64 {
            let mut board = universe(width, height, &[]);
            let mut expected = draws((width * height) as usize, seed * 16 + round);
            board.randomize(&expected);
            for _ in 0..4 {
                board.tick();
                expected = next_generation(width, height, &expected);
                assert_eq!(snapshot(&board), expected);
            }
        }
    }
}

#[test]
fn a_single_cell_on_a_board_of_one_cell() {
    // Five of the nine pairs of offsets are not both zero, and each of them
    // leads back to the board's only cell: it counts itself five times.
    let mut board = universe(1, 1, &[(0, 0)]);
    board.tick();
    assert_eq!(snapshot(&board), vec![false]);
    let mut board = universe(1, 1, &[]);
    board.tick();
    assert_eq!(snapshot(&board), vec![false]);
}

#[test]
fn a_full_row_on_a_board_of_one_row() {
    // Each cell counts its two neighbors in the row three times and itself
    // once: seven, so all die.
    let mut board = universe(4, 1, &[(0, 0), (0, 1), (0, 2), (0, 3)]);
    board.tick();
    assert_eq!(snapshot(&board), vec![false; 4]);
}

#[test]
fn a_blinker_set_by_hand_has_period_two() {
    let mut board = universe(6, 6, &[(1, 2), (2, 2), (3, 2)]);
    board.tick();
    assert_eq!(live_cells(&board), vec![(2, 1), (2, 2), (2, 3)]);
    board.tick();
    assert_eq!(live_cells(&board), vec![(1, 2), (2, 2), (3, 2)]);
}
