use game_of_life::AvailableShapes;
use game_of_life::Shape;
use game_of_life::ShapeError;
use game_of_life::Universe;

fn universe(width: u32, height: u32, alive: &[(u32, u32)]) -> Universe {
    let mut universe = Universe::new();
    universe.set_width(width);
    universe.set_height(height);
    universe.set_cells(alive);
    universe
}

fn snapshot(universe: &Universe) -> Vec<bool> {
    let size = (universe.width() * universe.height()) as usize;
    (0..size).map(|i| universe.get_cells().contains(i)).collect()
}

fn live_cells(universe: &Universe) -> Vec<(u32, u32)> {
    let mut live = Vec::new();
    for row in 0..universe.height() {
        for col in 0..universe.width() {
            if universe.get_cells().contains((row * universe.width() + col) as usize) {
                live.push((row, col));
            }
        }
    }
    live
}

/// The rows of a shape as text, `#` for a live cell and `.` for a dead one.
fn picture(shape: &Shape) -> Vec<String> {
    let width = shape.width() as usize;
    let height = shape.height() as usize;
    assert_eq!(shape.get_cells().len(), width * height);
    (0..height)
        .map(|row| {
            (0..width)
                .map(|col| if shape.get_cells().contains(row * width + col) { '#' } else { '.' })
                .collect()
        })
        .collect()
}

const NAMES: [(&str, AvailableShapes); 15] = [
    ("box", AvailableShapes::Square),
    ("beehive", AvailableShapes::Beehive),
    ("loaf", AvailableShapes::Loaf),
    ("boat", AvailableShapes::Boat),
    ("tub", AvailableShapes::Tub),
    ("blinker", AvailableShapes::Blinker),
    ("toad", AvailableShapes::Toad),
    ("beacon", AvailableShapes::Beacon),
    ("pulsar", AvailableShapes::Pulsar),
    ("pentadeca", AvailableShapes::PentaDeca),
    ("glider", AvailableShapes::Glider),
    ("lwss", AvailableShapes::Lwss),
    ("mwss", AvailableShapes::Mwss),
    ("hwss", AvailableShapes::Hwss),
    ("glidergen", AvailableShapes::GliderGen),
];

#[test]
fn square_is_in_the_catalog() {
    let shape = Shape::new(AvailableShapes::Square);
    assert_eq!(shape.width(), 2);
    assert_eq!(shape.height(), 2);
    assert_eq!(
        picture(&shape),
        vec![
            "##",
            "##",
        ]
    );
}

#[test]
fn beehive_is_in_the_catalog() {
    let shape = Shape::new(AvailableShapes::Beehive);
    assert_eq!(shape.width(), 6);
    assert_eq!(shape.height(), 3);
    assert_eq!(
        picture(&shape),
        vec![
            "..##..",
            ".#..#.",
            "..##..",
        ]
    );
}

#[test]
fn loaf_is_in_the_catalog() {
    let shape = Shape::new(AvailableShapes::Loaf);
    assert_eq!(shape.width(), 6);
    assert_eq!(shape.height(), 4);
    assert_eq!(
        picture(&shape),
        vec![
            "..##..",
            ".#..#.",
            "..#.#.",
            "...#..",
        ]
    );
}

#[test]
fn boat_is_in_the_catalog() {
    let shape = Shape::new(AvailableShapes::Boat);
    assert_eq!(shape.width(), 5);
    assert_eq!(shape.height(), 3);
    assert_eq!(
        picture(&shape),
        vec![
            ".##..",
            ".#.#.",
            "..#..",
        ]
    );
}

#[test]
fn tub_is_in_the_catalog() {
    let shape = Shape::new(AvailableShapes::Tub);
    assert_eq!(shape.width(), 5);
    assert_eq!(shape.height(), 3);
    assert_eq!(
        picture(&shape),
        vec![
            "..#..",
            ".#.#.",
            "..#..",
        ]
    );
}

#[test]
fn blinker_is_in_the_catalog() {
    let shape = Shape::new(AvailableShapes::Blinker);
    assert_eq!(shape.width(), 1);
    assert_eq!(shape.height(), 3);
    assert_eq!(
        picture(&shape),
        vec![
            "#",
            "#",
            "#",
        ]
    );
}

#[test]
fn toad_is_in_the_catalog() {
    let shape = Shape::new(AvailableShapes::Toad);
    assert_eq!(shape.width(), 4);
    assert_eq!(shape.height(), 4);
    assert_eq!(
        picture(&shape),
        vec![
            "..#.",
            "#..#",
            "#..#",
            ".#..",
        ]
    );
}

#[test]
fn beacon_is_in_the_catalog() {
    let shape = Shape::new(AvailableShapes::Beacon);
    assert_eq!(shape.width(), 4);
    assert_eq!(shape.height(), 4);
    assert_eq!(
        picture(&shape),
        vec![
            "##..",
            "##..",
            "..##",
            "..##",
        ]
    );
}

#[test]
fn pulsar_is_in_the_catalog() {
    let shape = Shape::new(AvailableShapes::Pulsar);
    assert_eq!(shape.width(), 13);
    assert_eq!(shape.height(), 13);
    assert_eq!(
        picture(&shape),
        vec![
            "..###...###..",
            ".............",
            "#....#.#....#",
            "#....#.#....#",
            "#....#.#....#",
            "..###...###..",
            ".............",
            "..###...###..",
            "#....#.#....#",
            "#....#.#....#",
            "#....#.#....#",
            ".............",
            "..###...###..",
        ]
    );
}

#[test]
fn pentadeca_is_in_the_catalog() {
    let shape = Shape::new(AvailableShapes::PentaDeca);
    assert_eq!(shape.width(), 9);
    assert_eq!(shape.height(), 10);
    assert_eq!(
        picture(&shape),
        vec![
            "...###...",
            "..#...#..",
            ".#.....#.",
            ".........",
            "#.......#",
            "#.......#",
            ".........",
            ".#.....#.",
            "..#...#..",
            "...###...",
        ]
    );
}

#[test]
fn glider_is_in_the_catalog() {
    let shape = Shape::new(AvailableShapes::Glider);
    assert_eq!(shape.width(), 3);
    assert_eq!(shape.height(), 3);
    assert_eq!(
        picture(&shape),
        vec![
            "..#",
            "#.#",
            ".##",
        ]
    );
}

#[test]
fn lwss_is_in_the_catalog() {
    let shape = Shape::new(AvailableShapes::Lwss);
    assert_eq!(shape.width(), 5);
    assert_eq!(shape.height(), 4);
    assert_eq!(
        picture(&shape),
        vec![
            ".####",
            "#...#",
            "....#",
            "#..#.",
        ]
    );
}

#[test]
fn mwss_is_in_the_catalog() {
    let shape = Shape::new(AvailableShapes::Mwss);
    assert_eq!(shape.width(), 6);
    assert_eq!(shape.height(), 5);
    assert_eq!(
        picture(&shape),
        vec![
            "..#...",
            "#...#.",
            ".....#",
            "#....#",
            ".#####",
        ]
    );
}

#[test]
fn hwss_is_in_the_catalog() {
    let shape = Shape::new(AvailableShapes::Hwss);
    assert_eq!(shape.width(), 7);
    assert_eq!(shape.height(), 5);
    assert_eq!(
        picture(&shape),
        vec![
            "..##...",
            "#....#.",
            "......#",
            "#.....#",
            ".######",
        ]
    );
}

#[test]
fn glidergen_is_in_the_catalog() {
    let shape = Shape::new(AvailableShapes::GliderGen);
    assert_eq!(shape.width(), 36);
    assert_eq!(shape.height(), 9);
    assert_eq!(
        picture(&shape),
        vec![
            "........................#...........",
            "......................#.#...........",
            "............##......##............##",
            "...........#...#....##............##",
            "##........#.....#...##..............",
            "##........#...#.##....#.#...........",
            "..........#.....#.......#...........",
            "...........#...#....................",
            "............##....................##",
        ]
    );
}

#[test]
fn every_name_finds_its_shape() {
    for (name, kind) in NAMES {
        assert_eq!(AvailableShapes::from_name(name), Some(kind));
    }
}

#[test]
fn names_are_matched_exactly() {
    for name in ["", "Box", "BOX", "box ", " box", "bo", "boxx", "square", "nonexistent", "glider gen", "bl\u{ee}nker"] {
        assert_eq!(AvailableShapes::from_name(name), None);
    }
}

#[test]
fn draw_box_on_an_empty_board() {
    let mut board = universe(4, 4, &[]);
    assert!(board.can_draw_shape(0, 0, "box"));
    assert_eq!(board.draw_shape(0, 0, "box"), Ok(()));
    assert_eq!(live_cells(&board), vec![(0, 0), (0, 1), (1, 0), (1, 1)]);
    assert_eq!(board.width(), 4);
    assert_eq!(board.height(), 4);
}

#[test]
fn draw_an_unknown_shape_is_an_error() {
    let mut board = universe(4, 4, &[(1, 2), (3, 3)]);
    assert!(board.can_draw_shape(0, 0, "nonexistent"));
    assert_eq!(board.draw_shape(0, 0, "nonexistent"), Err(ShapeError::UnsupportedShape));
    assert_eq!(live_cells(&board), vec![(1, 2), (3, 3)]);
    // Nothing is asked of the position then.
    assert_eq!(board.draw_shape(100, 100, "Box"), Err(ShapeError::UnsupportedShape));
    assert_eq!(live_cells(&board), vec![(1, 2), (3, 3)]);
    let mut seeded = Universe::new();
    let before = snapshot(&seeded);
    assert_eq!(seeded.draw_shape(3, 3, ""), Err(ShapeError::UnsupportedShape));
    assert_eq!(snapshot(&seeded), before);
}

#[test]
fn draw_overwrites_the_whole_rectangle() {
    // The dead cells of a shape are stamped too.
    let mut board = universe(8, 6, &[]);
    let all: Vec<(u32, u32)> = (0..6).flat_map(|row| (0..8).map(move |col| (row, col))).collect();
    board.set_cells(&all);
    assert_eq!(board.draw_shape(1, 2, "glider"), Ok(()));
    let mut expected = vec![true; 48];
    // Rows 1 to 3, columns 2 to 4: ..# / #.# / .##
    for (row, col) in [(1, 2), (1, 3), (2, 3), (3, 2)] {
        expected[row * 8 + col] = false;
    }
    assert_eq!(snapshot(&board), expected);
}

#[test]
fn draw_each_shape_where_it_fits() {
    for (name, kind) in NAMES {
        let shape = Shape::new(kind);
        let (width, height) = (shape.width(), shape.height());
        let mut board = universe(width + 3, height + 2, &[]);
        assert!(board.can_draw_shape(1, 2, name));
        assert_eq!(board.draw_shape(1, 2, name), Ok(()));
        for row in 0..height + 2 {
            for col in 0..width + 3 {
                let inside = row >= 1 && row < 1 + height && col >= 2 && col < 2 + width;
                let expected = inside
                    && shape.get_cells().contains(((row - 1) * width + (col - 2)) as usize);
                let index = (row * (width + 3) + col) as usize;
                assert_eq!(board.get_cells().contains(index), expected);
            }
        }
    }
}

#[test]
fn a_shape_past_the_right_edge_goes_on_in_the_next_row() {
    // A glider, three cells wide, stamped in the last column of a board
    // five cells wide: each of its rows begins in column 4 and goes on in
    // columns 0 and 1 of the row below.
    let mut board = universe(5, 5, &[]);
    assert!(board.can_draw_shape(0, 4, "glider"));
    assert_eq!(board.draw_shape(0, 4, "glider"), Ok(()));
    // ..#  lands at 4, 5, 6; #.# at 9, 10, 11; .## at 14, 15, 16.
    let mut expected = vec![false; 25];
    for index in [6, 9, 11, 15, 16] {
        expected[index] = true;
    }
    assert_eq!(snapshot(&board), expected);
    assert_eq!(live_cells(&board), vec![(1, 1), (1, 4), (2, 1), (3, 0), (3, 1)]);
}

#[test]
fn a_shape_past_the_right_edge_overwrites_what_it_lands_on() {
    let mut board = universe(4, 4, &[(1, 0), (1, 1), (0, 2)]);
    assert_eq!(board.draw_shape(0, 3, "box"), Ok(()));
    // The box lands at 3, 4 and 7, 8; the cells at 2 and 5 are not touched.
    assert_eq!(live_cells(&board), vec![(0, 2), (0, 3), (1, 0), (1, 1), (1, 3), (2, 0)]);
}

#[test]
fn a_shape_as_wide_as_the_board() {
    let mut board = universe(6, 3, &[]);
    assert!(board.can_draw_shape(0, 0, "beehive"));
    assert_eq!(board.draw_shape(0, 0, "beehive"), Ok(()));
    assert_eq!(live_cells(&board), vec![(0, 2), (0, 3), (1, 1), (1, 4), (2, 2), (2, 3)]);
}

#[test]
fn can_draw_shape_tells_when_a_shape_does_not_fit() {
    let board = universe(5, 5, &[]);
    // The last cell of a glider at (2, 4) lands at 14 + 2 * 5 + 2 = 26.
    assert!(!board.can_draw_shape(2, 4, "glider"));
    // At (2, 2) it lands at 12 + 10 + 2 = 24, the last cell of the board.
    assert!(board.can_draw_shape(2, 2, "glider"));
    assert!(!board.can_draw_shape(2, 3, "glider"));
    assert!(!board.can_draw_shape(3, 0, "glider"));
    assert!(board.can_draw_shape(1, 4, "glider"));
    // A shape wider than the board never fits.
    assert!(!board.can_draw_shape(0, 0, "beehive"));
    assert!(!board.can_draw_shape(0, 0, "glidergen"));
    let wide = universe(40, 9, &[]);
    assert!(wide.can_draw_shape(0, 4, "glidergen"));
    assert!(!wide.can_draw_shape(0, 5, "glidergen"));
    assert!(!wide.can_draw_shape(1, 0, "glidergen"));
    let none = universe(0, 0, &[]);
    assert!(!none.can_draw_shape(0, 0, "box"));
    assert!(none.can_draw_shape(0, 0, "no such shape"));
    let far = universe(5, 5, &[]);
    assert!(!far.can_draw_shape(u32::MAX, u32::MAX, "box"));
}

#[test]
fn a_stamped_blinker_has_period_two() {
    let mut board = universe(6, 6, &[]);
    assert_eq!(board.draw_shape(1, 2, "blinker"), Ok(()));
    assert_eq!(live_cells(&board), vec![(1, 2), (2, 2), (3, 2)]);
    board.tick();
    assert_eq!(live_cells(&board), vec![(2, 1), (2, 2), (2, 3)]);
    board.tick();
    assert_eq!(live_cells(&board), vec![(1, 2), (2, 2), (3, 2)]);
}

#[test]
fn a_stamped_blinker_at_the_left_edge_turns_around_the_torus() {
    let mut board = universe(4, 4, &[]);
    assert_eq!(board.draw_shape(1, 0, "blinker"), Ok(()));
    board.tick();
    assert_eq!(live_cells(&board), vec![(2, 0), (2, 1), (2, 3)]);
    board.tick();
    assert_eq!(live_cells(&board), vec![(1, 0), (2, 0), (3, 0)]);
}

#[test]
fn a_stamped_blinker_on_a_board_three_cells_wide_does_not_come_back() {
    let mut board = universe(3, 5, &[]);
    assert_eq!(board.draw_shape(1, 1, "blinker"), Ok(()));
    board.tick();
    assert_eq!(live_cells(&board), vec![(2, 0), (2, 1), (2, 2)]);
    board.tick();
    assert_eq!(
        live_cells(&board),
        vec![(1, 0), (1, 1), (1, 2), (2, 0), (2, 1), (2, 2), (3, 0), (3, 1), (3, 2)]
    );
}

#[test]
fn a_stamped_box_is_a_still_life() {
    let mut board = universe(6, 5, &[]);
    assert_eq!(board.draw_shape(2, 3, "box"), Ok(()));
    let block = vec![(2, 3), (2, 4), (3, 3), (3, 4)];
    assert_eq!(live_cells(&board), block);
    for _ in 0..12 {
        board.tick();
        assert_eq!(live_cells(&board), block);
    }
    // The smallest board on which it is one.
    let mut small = universe(3, 3, &[]);
    assert_eq!(small.draw_shape(1, 1, "box"), Ok(()));
    for _ in 0..5 {
        small.tick();
        assert_eq!(live_cells(&small), vec![(1, 1), (1, 2), (2, 1), (2, 2)]);
    }
}

#[test]
fn a_stamped_box_on_a_board_two_cells_wide_is_not_still() {
    // Each cell of the block counts the cell beside it twice, and so has
    // five live neighbors; the cells above and below count three.
    let mut board = universe(2, 4, &[]);
    assert_eq!(board.draw_shape(1, 0, "box"), Ok(()));
    board.tick();
    assert_eq!(live_cells(&board), vec![(0, 0), (0, 1), (3, 0), (3, 1)]);
}

#[test]
fn the_other_still_lifes_are_still() {
    for name in ["beehive", "loaf", "boat", "tub"] {
        let mut board = universe(12, 10, &[]);
        assert_eq!(board.draw_shape(3, 3, name), Ok(()));
        let before = snapshot(&board);
        assert!(before.iter().any(|cell| *cell));
        for _ in 0..3 {
            board.tick();
            assert_eq!(snapshot(&board), before);
        }
    }
}

#[test]
fn the_oscillators_come_back() {
    for (name, period) in [("blinker", 2), ("toad", 2), ("beacon", 2), ("pulsar", 3), ("pentadeca", 15)] {
        let mut board = universe(30, 30, &[]);
        assert_eq!(board.draw_shape(8, 8, name), Ok(()));
        let before = snapshot(&board);
        board.tick();
        assert_ne!(snapshot(&board), before);
        for _ in 1..period {
            board.tick();
        }
        assert_eq!(snapshot(&board), before);
    }
}
