use cordon::bot::drunk_lamppost_next;
use cordon::common::{Direction, Position};
use cordon::game::GameState;

fn lone_player_at(x: usize, y: usize, d: Direction) -> GameState {
    let mut game = GameState::new(2, 3);
    game.players[0].segments = vec![(Position { x, y }, d)];
    game
}

#[test]
fn unique_safe_direction_wins_whatever_the_draws_say() {
    let mut game = lone_player_at(5, 5, Direction::South);
    game.obstacles.push(Position { x: 4, y: 5 });
    game.obstacles.push(Position { x: 6, y: 5 });
    game.obstacles.push(Position { x: 5, y: 6 });
    for keep_roll in [true, false] {
        for pick in 0..8 {
            assert_eq!(drunk_lamppost_next(&game, keep_roll, pick), Direction::North);
        }
    }
}

#[test]
fn fully_blocked_bot_keeps_its_heading() {
    let mut game = lone_player_at(5, 5, Direction::South);
    game.obstacles.push(Position { x: 4, y: 5 });
    game.obstacles.push(Position { x: 6, y: 5 });
    game.obstacles.push(Position { x: 5, y: 6 });
    game.obstacles.push(Position { x: 5, y: 4 });
    for keep_roll in [true, false] {
        for pick in 0..8 {
            assert_eq!(drunk_lamppost_next(&game, keep_roll, pick), Direction::South);
        }
    }
}

#[test]
fn safe_heading_is_kept_when_the_roll_says_so() {
    let game = lone_player_at(5, 5, Direction::South);
    for pick in 0..8 {
        assert_eq!(drunk_lamppost_next(&game, true, pick), Direction::South);
    }
}

#[test]
fn otherwise_the_pick_indexes_the_safe_directions_in_canonical_order() {
    let game = lone_player_at(5, 5, Direction::South);
    assert_eq!(drunk_lamppost_next(&game, false, 0), Direction::North);
    assert_eq!(drunk_lamppost_next(&game, false, 1), Direction::East);
    assert_eq!(drunk_lamppost_next(&game, false, 2), Direction::South);
    assert_eq!(drunk_lamppost_next(&game, false, 3), Direction::West);
    assert_eq!(drunk_lamppost_next(&game, false, 5), Direction::East);
}

#[test]
fn unsafe_heading_falls_back_to_the_safe_list() {
    let mut game = lone_player_at(5, 5, Direction::South);
    game.obstacles.push(Position { x: 5, y: 6 });
    game.obstacles.push(Position { x: 4, y: 5 });
    // Safe directions, in canonical order: North, East.
    for keep_roll in [true, false] {
        assert_eq!(drunk_lamppost_next(&game, keep_roll, 0), Direction::North);
        assert_eq!(drunk_lamppost_next(&game, keep_roll, 1), Direction::East);
        assert_eq!(drunk_lamppost_next(&game, keep_roll, 2), Direction::North);
    }
}

#[test]
fn the_bot_simulates_on_copies_only() {
    let game = lone_player_at(5, 5, Direction::South);
    let obstacles_before = game.obstacles.clone();
    let _ = drunk_lamppost_next(&game, false, 3);
    assert_eq!(game.players[0].segments, vec![(Position { x: 5, y: 5 }, Direction::South)]);
    assert_eq!(game.players[1].segments.len(), 1);
    assert_eq!(game.obstacles, obstacles_before);
}

#[test]
fn bot_driven_play_keeps_every_invariant() {
    let mut game = GameState::new(2, 5);
    for round in 0..200 {
        if game.phase == cordon::game::Phase::GameOver {
            break;
        }
        if game.phase == cordon::game::Phase::Step {
            assert!(game.is_well_formed());
            let direction = drunk_lamppost_next(&game, round % 3 != 0, round % 7);
            let active = game.active_player;
            game.players[active].set_direction(direction);
        }
        assert_eq!(game.tick(), Ok(()));
        assert!(game.players.iter().all(|p| !p.segments.is_empty()));
        assert!(cordon::layout::Grid::new(32, 28, &game).is_ok());
    }
}

#[test]
fn the_bot_avoids_the_other_players_trail() {
    let mut game = GameState::new(2, 3);
    // The first player sits just above the second player's head and faces it.
    game.players[0].segments = vec![(Position { x: 20, y: 19 }, Direction::South)];
    let choice = drunk_lamppost_next(&game, true, 0);
    assert_ne!(choice, Direction::South);
}
