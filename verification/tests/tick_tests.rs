//! The tick engine end to end: growth clocks and move resolution.

use generals::Board;
use generals::Cell;
use generals::Direction;
use generals::GameState;
use generals::PlayerState;
use generals::Position;

fn fresh_game(size: usize, num_players: usize) -> GameState {
    let board = Board::empty(size);
    let mut player_states = Vec::new();
    let mut team = 0;
    while team < num_players {
        player_states.push(PlayerState::new(team));
        team += 1;
    }
    GameState {
        board,
        tick_number: 0,
        num_players,
        player_states,
        dimens: (size as i32, size as i32),
    }
}

#[test]
fn tick_advances_the_counter_and_nothing_else_on_an_empty_board() {
    let mut game = fresh_game(4, 2);
    game.tick();
    assert_eq!(game.tick_number, 1);
    assert_eq!(game.num_players, 2);
    assert_eq!(game.dimens, (4, 4));
    for row in game.board.cells() {
        for cell in row {
            assert_eq!(*cell, Cell::Open);
        }
    }
}

#[test]
fn growth_over_32_ticks_king_gains_16_captured_gains_1() {
    let mut game = fresh_game(8, 2);
    *game.board.get_mut(0, 0) = Cell::King(0, 1);
    *game.board.get_mut(1, 0) = Cell::Captured(0, 5);
    *game.board.get_mut(2, 0) = Cell::Fortress(Some(1), 40);
    *game.board.get_mut(3, 0) = Cell::Fortress(None, 44);
    for _ in 0..32 {
        game.tick();
    }
    assert_eq!(*game.board.get(0, 0), Cell::King(0, 17));
    assert_eq!(*game.board.get(1, 0), Cell::Captured(0, 6));
    assert_eq!(*game.board.get(2, 0), Cell::Fortress(Some(1), 56));
    assert_eq!(*game.board.get(3, 0), Cell::Fortress(None, 44));
}

#[test]
fn growth_starts_on_the_first_even_tick() {
    let mut game = fresh_game(4, 1);
    *game.board.get_mut(0, 0) = Cell::King(0, 1);
    game.tick();
    // Tick 1 is odd: the fast clock has not fired yet.
    assert_eq!(*game.board.get(0, 0), Cell::King(0, 1));
    game.tick();
    assert_eq!(*game.board.get(0, 0), Cell::King(0, 2));
}

#[test]
fn moving_onto_open_ground_captures_it() {
    let mut game = fresh_game(8, 2);
    *game.board.get_mut(4, 5) = Cell::Captured(0, 11);
    game.player_mut(0).moves.push_back((Position(4, 5), Direction::Right));
    game.tick();
    assert_eq!(*game.board.get(5, 5), Cell::Captured(0, 10));
    assert_eq!(*game.board.get(4, 5), Cell::Captured(0, 1));
    assert_eq!(game.player_mut(0).moves.len(), 0);
}

#[test]
fn overrunning_an_enemy_cell_flips_it() {
    let mut game = fresh_game(8, 2);
    *game.board.get_mut(4, 5) = Cell::Captured(1, 11);
    *game.board.get_mut(5, 5) = Cell::Captured(0, 8);
    game.player_mut(1).moves.push_back((Position(4, 5), Direction::Right));
    game.tick();
    assert_eq!(*game.board.get(5, 5), Cell::Captured(1, 2));
    assert_eq!(*game.board.get(4, 5), Cell::Captured(1, 1));
}

#[test]
fn a_weak_attack_only_wears_the_defender_down() {
    let mut game = fresh_game(8, 2);
    *game.board.get_mut(4, 5) = Cell::Captured(1, 6);
    *game.board.get_mut(5, 5) = Cell::Captured(0, 8);
    game.player_mut(1).moves.push_back((Position(4, 5), Direction::Right));
    game.tick();
    assert_eq!(*game.board.get(5, 5), Cell::Captured(0, 3));
    assert_eq!(*game.board.get(4, 5), Cell::Captured(1, 1));
}

#[test]
fn a_fallen_king_leaves_an_attacker_fortress() {
    let mut game = fresh_game(8, 2);
    *game.board.get_mut(4, 5) = Cell::Captured(1, 11);
    *game.board.get_mut(5, 5) = Cell::King(0, 3);
    game.player_mut(1).moves.push_back((Position(4, 5), Direction::Right));
    game.tick();
    // 10 units in flight, minus (3 - 1) lost to the garrison-adjusted
    // defense: a fortress of 8 for the attacker.
    assert_eq!(*game.board.get(5, 5), Cell::Fortress(Some(1), 8));
}

#[test]
fn a_drained_source_aborts_and_clears_the_queue() {
    let mut game = fresh_game(8, 2);
    *game.board.get_mut(4, 5) = Cell::Captured(0, 1);
    game.player_mut(0).moves.push_back((Position(4, 5), Direction::Right));
    game.player_mut(0).moves.push_back((Position(5, 5), Direction::Right));
    game.tick();
    assert_eq!(*game.board.get(4, 5), Cell::Captured(0, 1));
    assert_eq!(*game.board.get(5, 5), Cell::Open);
    assert_eq!(game.player_mut(0).moves.len(), 0);
}

#[test]
fn a_mountain_bump_returns_the_units_and_clears_the_queue() {
    let mut game = fresh_game(8, 2);
    *game.board.get_mut(4, 5) = Cell::Captured(0, 11);
    *game.board.get_mut(5, 5) = Cell::Mountain;
    game.player_mut(0).moves.push_back((Position(4, 5), Direction::Right));
    game.player_mut(0).moves.push_back((Position(4, 5), Direction::Up));
    game.tick();
    assert_eq!(*game.board.get(4, 5), Cell::Captured(0, 11));
    assert_eq!(*game.board.get(5, 5), Cell::Mountain);
    assert_eq!(game.player_mut(0).moves.len(), 0);
}

#[test]
fn one_move_is_consumed_per_player_per_tick() {
    let mut game = fresh_game(8, 2);
    *game.board.get_mut(2, 2) = Cell::Captured(0, 9);
    game.player_mut(0).moves.push_back((Position(2, 2), Direction::Right));
    game.player_mut(0).moves.push_back((Position(3, 2), Direction::Right));
    game.tick();
    assert_eq!(game.player_mut(0).moves.len(), 1);
    assert_eq!(*game.board.get(3, 2), Cell::Captured(0, 8));
    game.tick();
    assert_eq!(game.player_mut(0).moves.len(), 0);
    assert_eq!(*game.board.get(3, 2), Cell::Captured(0, 1));
    assert_eq!(*game.board.get(4, 2), Cell::Captured(0, 7));
}

#[test]
fn players_resolve_in_team_order() {
    let mut game = fresh_game(8, 2);
    // Both players push onto the same open cell; player 0 moves first,
    // so player 1 attacks what player 0 just captured.
    *game.board.get_mut(3, 4) = Cell::Captured(0, 6);
    *game.board.get_mut(5, 4) = Cell::Captured(1, 9);
    game.player_mut(0).moves.push_back((Position(3, 4), Direction::Right));
    game.player_mut(1).moves.push_back((Position(5, 4), Direction::Left));
    game.tick();
    // Player 0 captures with 5; player 1 then overruns with 8: 8 - 5 = 3.
    assert_eq!(*game.board.get(4, 4), Cell::Captured(1, 3));
}
