//! The torus board: wrap-around movement, collisions, trails, the setup
//! header and the plain cell renderings.

use snakerunner::game::{Direction, TorusSnakeGame};

fn fresh_game() -> TorusSnakeGame {
    TorusSnakeGame::new(3, 3, vec![(0, 0), (2, 2)])
}

#[test]
fn shift_wraps_on_every_edge() {
    let game = fresh_game();
    assert_eq!(game.shift_coords((0, 0), Direction::North), (0, 2));
    assert_eq!(game.shift_coords((0, 0), Direction::West), (2, 0));
    assert_eq!(game.shift_coords((2, 2), Direction::South), (2, 0));
    assert_eq!(game.shift_coords((2, 2), Direction::East), (0, 2));
    assert_eq!(game.shift_coords((1, 1), Direction::East), (2, 1));
}

#[test]
fn coord_shift_unit_offsets() {
    assert_eq!(Direction::North.coord_shift(), (0, -1));
    assert_eq!(Direction::South.coord_shift(), (0, 1));
    assert_eq!(Direction::East.coord_shift(), (1, 0));
    assert_eq!(Direction::West.coord_shift(), (-1, 0));
}

#[test]
fn shift_then_opposite_returns() {
    let game = fresh_game();
    for x in 0..3 {
        for y in 0..3 {
            for d in [Direction::North, Direction::South, Direction::East, Direction::West] {
                let there = game.shift_coords((x, y), d);
                assert!(there.0 < 3 && there.1 < 3);
                assert_eq!(game.shift_coords(there, d.opposite()), (x, y));
            }
        }
    }
}

#[test]
fn new_board_has_only_the_starting_cells() {
    let game = fresh_game();
    for x in 0..3 {
        for y in 0..3 {
            let expected = if (x, y) == (0, 0) {
                Some(0)
            } else if (x, y) == (2, 2) {
                Some(1)
            } else {
                None
            };
            assert_eq!(game.get((x, y)), expected);
        }
    }
}

#[test]
fn successful_move_leaves_a_trail() {
    let mut game = fresh_game();
    assert!(game.move_player(0, Direction::East));
    assert_eq!(game.get((1, 0)), Some(0));
    assert_eq!(game.get((0, 0)), Some(0));
    assert_eq!(game.head_positions[0], (1, 0));
}

#[test]
fn occupied_cell_rejects_the_move() {
    let mut game = fresh_game();
    assert!(game.move_player(0, Direction::East));
    // Moving back onto its own trail is a losing move: the cell is taken
    // and stays taken.
    assert!(!game.move_player(0, Direction::West));
    assert_eq!(game.head_positions[0], (1, 0));
    assert_eq!(game.get((0, 0)), Some(0));
    assert!(!game.alive_players[0]);
    assert!(game.alive_players[1]);
}

#[test]
fn one_by_one_board_kills_at_once() {
    let mut game = TorusSnakeGame::new(1, 1, vec![(0, 0)]);
    // Every direction wraps back onto the player's own cell.
    assert!(!game.move_player(0, Direction::East));
}

#[test]
fn setup_string_lists_size_count_and_positions() {
    let game = fresh_game();
    assert_eq!(game.setup_string(), "3,3\n2\n0,0\n2,2");
    let alone = TorusSnakeGame::new(10, 4, vec![(7, 3)]);
    assert_eq!(alone.setup_string(), "10,4\n1\n7,3");
}

#[test]
fn display_cell_plain_forms() {
    let mut game = fresh_game();
    assert_eq!(game.display_cell((1, 1)), "\u{b7}");
    assert!(game.move_player(0, Direction::East));
    // The old head cell is now plain trail and renders as the bare id.
    assert_eq!(game.display_cell((0, 0)), "0");
}

#[test]
fn display_cell_head_carries_the_id() {
    let mut game = fresh_game();
    assert!(game.move_player(0, Direction::East));
    // A head cell renders the owner's id, possibly between styling
    // escapes.
    assert!(game.display_cell((1, 0)).contains('0'));
    assert!(game.display_cell((2, 2)).contains('1'));
}

#[test]
fn board_string_shape() {
    let game = fresh_game();
    let picture = game.board_string();
    assert!(picture.starts_with("+---+\n|"));
    assert!(picture.ends_with("|\n+---+"));
    // Three rows of three cells each; the free cells show the dot and
    // the starting cells their owners' ids.
    assert_eq!(picture.lines().count(), 5);
    assert_eq!(picture.matches('\u{b7}').count(), 7);
    assert!(picture.contains('0'));
    assert!(picture.contains('1'));
}
