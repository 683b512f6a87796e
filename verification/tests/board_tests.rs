//! Board construction, access, and randomized generation.

use generals::Board;
use generals::Cell;
use generals::Direction;
use generals::Position;

#[test]
fn an_empty_board_is_all_open() {
    let board = Board::empty(5);
    let rows = board.cells();
    assert_eq!(rows.len(), 5);
    for row in rows {
        assert_eq!(row.len(), 5);
        for cell in row {
            assert_eq!(*cell, Cell::Open);
        }
    }
}

#[test]
fn get_and_try_get_agree_on_the_board() {
    let mut board = Board::empty(4);
    *board.get_mut(2, 1) = Cell::Captured(0, 3);
    assert_eq!(*board.get(2, 1), Cell::Captured(0, 3));
    assert_eq!(board.try_get(2, 1), Some(&Cell::Captured(0, 3)));
    assert_eq!(*board.get(0, 0), Cell::Open);
}

#[test]
fn try_get_rejects_coordinates_off_the_board() {
    let board = Board::empty(4);
    assert_eq!(board.try_get(-1, 0), None);
    assert_eq!(board.try_get(0, -1), None);
    assert_eq!(board.try_get(4, 0), None);
    assert_eq!(board.try_get(0, 4), None);
    assert!(board.try_get(3, 3).is_some());
}

#[test]
fn randomize_produces_only_generated_cells() {
    let num_players = 2;
    let mut board = Board::empty(16);
    board.randomize(num_players);
    let mut last_king_seen = false;
    for row in board.cells() {
        for cell in row {
            match *cell {
                Cell::Open => {}
                Cell::Mountain => {}
                Cell::Fortress(owner, u) => {
                    assert_eq!(owner, None);
                    assert!((40..50).contains(&u));
                }
                Cell::King(t, u) => {
                    assert!(t < num_players);
                    assert_eq!(u, 1);
                    if t == num_players - 1 {
                        last_king_seen = true;
                    }
                }
                Cell::Captured(_, _) => panic!("generation never places captured ground"),
            }
        }
    }
    // The last-placed king can never be overwritten.
    assert!(last_king_seen);
}

#[test]
fn randomize_places_at_most_one_king_per_team() {
    let num_players = 3;
    let mut board = Board::empty(12);
    board.randomize(num_players);
    let mut kings_of = vec![0usize; num_players];
    for row in board.cells() {
        for cell in row {
            if let Cell::King(t, _) = *cell {
                kings_of[t] += 1;
            }
        }
    }
    for count in kings_of {
        assert!(count <= 1);
    }
}

#[test]
fn stepping_a_position_moves_one_cell() {
    assert_eq!(Position(3, 4).step(Direction::Up), Position(3, 3));
    assert_eq!(Position(3, 4).step(Direction::Down), Position(3, 5));
    assert_eq!(Position(3, 4).step(Direction::Left), Position(2, 4));
    assert_eq!(Position(3, 4).step(Direction::Right), Position(4, 4));
}

#[test]
fn direction_vectors_are_unit_steps() {
    assert_eq!(Direction::Up.to_xy(), (0, -1));
    assert_eq!(Direction::Down.to_xy(), (0, 1));
    assert_eq!(Direction::Left.to_xy(), (-1, 0));
    assert_eq!(Direction::Right.to_xy(), (1, 0));
}

#[test]
fn direction_from_clips_at_the_edges() {
    let (w, h) = (4, 4);
    assert_eq!(Direction::Up.from((0, 0), w, h), None);
    assert_eq!(Direction::Left.from((0, 0), w, h), None);
    assert_eq!(Direction::Down.from((0, 3), w, h), None);
    assert_eq!(Direction::Right.from((3, 0), w, h), None);
    assert_eq!(Direction::Up.from((1, 1), w, h), Some((1, 0)));
    assert_eq!(Direction::Down.from((1, 1), w, h), Some((1, 2)));
    assert_eq!(Direction::Left.from((1, 1), w, h), Some((0, 1)));
    assert_eq!(Direction::Right.from((1, 1), w, h), Some((2, 1)));
}
