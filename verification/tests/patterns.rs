use life::{impacts, Life, Point};

fn sorted(game: &Life) -> Vec<Point> {
    let mut cells = game.cells();
    cells.sort();
    cells
}

fn touches_or_is(a: Point, b: Point) -> bool {
    (a.0 as i64 - b.0 as i64).abs() <= 1 && (a.1 as i64 - b.1 as i64).abs() <= 1
}

#[test]
fn test_impacts() {
    assert_eq!(
        impacts((0, 0)),
        &[
            (1, 0),
            (0, 1),
            (1, 1),
            (1, -1),
            (-1, 0),
            (0, -1),
            (-1, 1),
            (-1, -1),
            (0, 0),
        ]
    )
}

#[test]
fn test_block() {
    let mut game = Life::default();
    game.insert((1, 1));
    game.insert((2, 1));
    game.insert((2, 2));
    game.insert((1, 2));
    let start = game.clone();
    game.tick();
    assert_eq!(start, game);
    game.tick();
    assert_eq!(start, game);
}

#[test]
fn test_blinker() {
    let mut game = Life::default();
    game.insert((1, 1));
    game.insert((2, 1));
    game.insert((3, 1));
    let start = game.clone();
    game.tick();
    game.tick();
    assert_eq!(start, game);
}

#[test]
fn test_diehard() {
    let mut game = Life::default();
    game.insert((1, 0));
    game.insert((1, 1));
    game.insert((0, 1));
    game.insert((5, 0));
    game.insert((6, 0));
    game.insert((7, 0));
    game.insert((6, 2));

    for _ in 0..130 {
        assert!(!game.is_empty());
        game.tick();
    }
    assert_eq!(game.len(), 0);
}

#[test]
fn block_is_still_for_many_ticks() {
    let mut game = Life::from_iter(&[(1, 1), (2, 1), (2, 2), (1, 2)]);
    let start = game.clone();
    for _ in 0..50 {
        game.tick();
        assert_eq!(game, start);
        assert_eq!(game.len(), 4);
    }
}

#[test]
fn blinker_turns_after_one_tick() {
    let mut game = Life::from_iter(&[(1, 1), (2, 1), (3, 1)]);
    let start = game.clone();
    game.tick();
    assert_ne!(game, start);
    assert_eq!(sorted(&game), vec![(2, 0), (2, 1), (2, 2)]);
    game.tick();
    assert_eq!(game, start);
    assert_eq!(sorted(&game), vec![(1, 1), (2, 1), (3, 1)]);
}

#[test]
fn glider_moves_one_cell_in_four_ticks() {
    let mut game = Life::from_iter(&[(1, 0), (2, 1), (0, 2), (1, 2), (2, 2)]);
    game.tick();
    assert_eq!(sorted(&game), vec![(0, 1), (1, 2), (1, 3), (2, 1), (2, 2)]);
    game.tick();
    assert_eq!(sorted(&game), vec![(0, 2), (1, 3), (2, 1), (2, 2), (2, 3)]);
    game.tick();
    assert_eq!(sorted(&game), vec![(1, 1), (1, 3), (2, 2), (2, 3), (3, 2)]);
    game.tick();
    assert_eq!(sorted(&game), vec![(1, 3), (2, 1), (2, 3), (3, 2), (3, 3)]);
}

#[test]
fn diehard_after_one_tick_and_before_the_last() {
    let mut game = Life::from_iter(&[(1, 0), (1, 1), (0, 1), (5, 0), (6, 0), (7, 0), (6, 2)]);
    game.tick();
    assert_eq!(
        sorted(&game),
        vec![(0, 0), (0, 1), (1, 0), (1, 1), (5, 1), (6, -1), (6, 0), (7, 1)]
    );
    for _ in 1..129 {
        game.tick();
    }
    assert_eq!(sorted(&game), vec![(0, -11), (0, -10)]);
    game.tick();
    assert!(game.is_empty());
}

#[test]
fn empty_board_stays_empty() {
    let mut game = Life::default();
    game.tick();
    assert!(game.is_empty());
    assert_eq!(game, Life::default());
}

#[test]
fn lonely_cells_die() {
    let mut game = Life::from_iter(&[(0, 0)]);
    game.tick();
    assert!(game.is_empty());
    let mut pair = Life::from_iter(&[(0, 0), (1, 0), (100, 100)]);
    pair.tick();
    assert!(pair.is_empty());
}

#[test]
fn crowded_cell_dies_and_corners_fill() {
    let mut game = Life::from_iter(&[(1, 1), (0, 1), (2, 1), (1, 0), (1, 2)]);
    game.tick();
    assert_eq!(
        sorted(&game),
        vec![(0, 0), (0, 1), (0, 2), (1, 0), (1, 2), (2, 0), (2, 1), (2, 2)]
    );
}

#[test]
fn tick_judges_against_the_old_generation_only() {
    let mut game = Life::from_iter(&[(0, 0), (1, 0), (0, 1)]);
    game.tick();
    assert_eq!(sorted(&game), vec![(0, 0), (0, 1), (1, 0), (1, 1)]);
}

#[test]
fn blinker_on_the_east_edge_loses_what_lies_outside() {
    let mut game = Life::from_iter(&[(i32::MAX, 0), (i32::MAX, 1), (i32::MAX, 2)]);
    game.tick();
    assert_eq!(sorted(&game), vec![(i32::MAX - 1, 1), (i32::MAX, 1)]);
    game.tick();
    assert!(game.is_empty());
}

#[test]
fn corner_of_the_plane_fills_to_a_block() {
    let mut game =
        Life::from_iter(&[(i32::MIN, i32::MIN), (i32::MIN + 1, i32::MIN), (i32::MIN, i32::MIN + 1)]);
    game.tick();
    assert_eq!(
        sorted(&game),
        vec![
            (i32::MIN, i32::MIN),
            (i32::MIN, i32::MIN + 1),
            (i32::MIN + 1, i32::MIN),
            (i32::MIN + 1, i32::MIN + 1),
        ]
    );
    let block = game.clone();
    game.tick();
    assert_eq!(game, block);
}

#[test]
fn tick_of_equal_boards_gives_equal_boards() {
    let cells = [(1, 0), (2, 0), (0, 1), (1, 1), (1, 2)];
    let mut a = Life::default();
    for pt in cells {
        a.insert(pt);
    }
    let mut b = Life::default();
    for pt in cells.iter().rev() {
        b.insert(*pt);
    }
    let mut c = a.clone();
    for _ in 0..40 {
        a.tick();
        b.tick();
        c.tick();
        assert_eq!(a, b);
        assert_eq!(a, c);
        assert_eq!(sorted(&a), sorted(&b));
    }
}

#[test]
fn every_new_cell_is_near_an_old_one() {
    let mut game = Life::from_iter(&[(1, 0), (2, 0), (0, 1), (1, 1), (1, 2), (40, 40), (41, 40), (42, 40)]);
    for _ in 0..30 {
        let before = game.cells();
        game.tick();
        for cell in game.cells() {
            assert!(before.iter().any(|old| touches_or_is(*old, cell)));
        }
    }
}
