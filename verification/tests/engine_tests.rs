use cordon::common::{Color, Direction, Position};
use cordon::game::{generate_wall, EngineError, GameState, Phase, Player};

fn rig_player_next_to_left_wall(game: &mut GameState) {
    game.players[0].segments = vec![(Position { x: 1, y: 1 }, Direction::West)];
}

#[test]
fn new_game_layout() {
    let game = GameState::new(2, 3);
    assert_eq!(game.phase, Phase::Step);
    assert_eq!(game.active_player, 0);
    assert_eq!(game.grid_width, 32);
    assert_eq!(game.grid_height, 28);
    assert_eq!(game.max_score, 3);
    assert_eq!(game.players.len(), 2);
    assert_eq!(game.players[0].color, Color::red());
    assert_eq!(game.players[0].score, 0);
    assert_eq!(
        game.players[0].segments,
        vec![(Position { x: 10, y: 10 }, Direction::South)]
    );
    assert_eq!(game.players[1].color, Color::blue());
    assert_eq!(game.players[1].score, 0);
    assert_eq!(
        game.players[1].segments,
        vec![(Position { x: 20, y: 20 }, Direction::North)]
    );
    assert_eq!(game.obstacles.len(), 116);
    assert_eq!(game.obstacles, generate_wall(32, 28));
    assert!(game.is_well_formed());
}

#[test]
fn wall_runs_counter_clockwise_around_the_grid() {
    let walls = generate_wall(32, 28);
    assert_eq!(walls.len(), 2 * 32 + 2 * 28 - 4);
    assert_eq!(walls[0], Position { x: 30, y: 0 });
    assert_eq!(walls[29], Position { x: 1, y: 0 });
    assert_eq!(walls[30], Position { x: 0, y: 0 });
    assert_eq!(walls[57], Position { x: 0, y: 27 });
    assert_eq!(walls[58], Position { x: 1, y: 27 });
    assert_eq!(walls[87], Position { x: 30, y: 27 });
    assert_eq!(walls[88], Position { x: 31, y: 27 });
    assert_eq!(walls[115], Position { x: 31, y: 0 });
    for w in walls.iter() {
        assert!(w.x < 32 && w.y < 28);
        assert!(w.x == 0 || w.x == 31 || w.y == 0 || w.y == 27);
    }
}

#[test]
fn free_moves_pass_the_turn_and_grow_trails() {
    let mut game = GameState::new(2, 3);
    assert_eq!(game.tick(), Ok(()));
    assert_eq!(game.phase, Phase::Step);
    assert_eq!(game.active_player, 1);
    assert_eq!(game.players[0].segments.len(), 2);
    assert_eq!(
        game.players[0].segments[1],
        (Position { x: 10, y: 11 }, Direction::South)
    );
    assert_eq!(game.players[1].segments.len(), 1);

    assert_eq!(game.tick(), Ok(()));
    assert_eq!(game.active_player, 0);
    assert_eq!(
        game.players[1].segments[1],
        (Position { x: 20, y: 19 }, Direction::North)
    );

    for _ in 0..6 {
        assert_eq!(game.tick(), Ok(()));
    }
    assert_eq!(game.phase, Phase::Step);
    assert_eq!(game.players[0].segments.len(), 5);
    assert_eq!(game.players[1].segments.len(), 5);
    assert!(game.players.iter().all(|p| !p.segments.is_empty()));
}

#[test]
fn fresh_head_alone_is_no_collision() {
    let mut game = GameState::new(2, 3);
    game.step();
    assert_eq!(
        game.players[0].segments.last().unwrap().0,
        Position { x: 10, y: 11 }
    );
    assert!(!game.has_collision());
}

#[test]
fn own_older_trail_counts_as_collision() {
    let mut game = GameState::new(2, 3);
    game.players[0].segments = vec![
        (Position { x: 5, y: 5 }, Direction::East),
        (Position { x: 6, y: 5 }, Direction::West),
    ];
    game.step();
    assert_eq!(game.players[0].segments.last().unwrap().0, Position { x: 5, y: 5 });
    assert!(game.has_collision());
}

#[test]
fn another_players_head_counts_as_collision() {
    let mut game = GameState::new(2, 3);
    game.players[1].segments = vec![(Position { x: 10, y: 11 }, Direction::North)];
    assert_eq!(game.tick(), Ok(()));
    assert_eq!(game.phase, Phase::Score);
    assert_eq!(game.players[0].score, 0);
    assert_eq!(game.players[1].score, 1);
}

#[test]
fn collision_scores_every_other_player_once() {
    let mut game = GameState::new(2, 3);
    rig_player_next_to_left_wall(&mut game);
    assert_eq!(game.tick(), Ok(()));
    assert_eq!(game.phase, Phase::Score);
    assert_eq!(game.players[0].score, 0);
    assert_eq!(game.players[1].score, 1);
    assert_eq!(
        game.players[0].segments.last().unwrap().0,
        Position { x: 0, y: 1 }
    );
}

#[test]
fn rounds_until_game_over() {
    let mut game = GameState::new(2, 3);

    // Round 1: the first player runs into the left wall.
    rig_player_next_to_left_wall(&mut game);
    assert_eq!(game.tick(), Ok(()));
    assert_eq!(game.players[1].score, 1);
    assert_eq!(game.phase, Phase::Score);

    // The next tick resets the round.
    assert_eq!(game.tick(), Ok(()));
    assert_eq!(game.phase, Phase::Step);
    assert_eq!(game.active_player, 0);
    assert_eq!(
        game.players[0].segments,
        vec![(Position { x: 10, y: 10 }, Direction::South)]
    );
    assert_eq!(
        game.players[1].segments,
        vec![(Position { x: 20, y: 20 }, Direction::North)]
    );
    assert_eq!(game.obstacles.len(), 116);

    // Round 2: the same collision again.
    rig_player_next_to_left_wall(&mut game);
    assert_eq!(game.tick(), Ok(()));
    assert_eq!(game.players[1].score, 2);
    assert_eq!(game.phase, Phase::Score);
    assert_eq!(game.tick(), Ok(()));
    assert_eq!(game.phase, Phase::Step);

    // Round 3: the third point reaches the target score.
    rig_player_next_to_left_wall(&mut game);
    assert_eq!(game.tick(), Ok(()));
    assert_eq!(game.players[1].score, 3);
    assert_eq!(game.phase, Phase::GameOver);

    // GameOver absorbs every further tick.
    assert_eq!(game.tick(), Ok(()));
    assert_eq!(game.phase, Phase::GameOver);
    assert_eq!(game.players[1].score, 3);
    assert_eq!(
        game.players[0].segments.last().unwrap().0,
        Position { x: 0, y: 1 }
    );
}

#[test]
fn single_player_keeps_the_turn() {
    let mut game = GameState::new(2, 3);
    game.players = vec![Player::new(
        Color::red(),
        Position { x: 10, y: 10 },
        Direction::South,
    )];
    assert_eq!(game.tick(), Ok(()));
    assert_eq!(game.active_player, 0);
    assert_eq!(game.players[0].segments.len(), 2);
}

#[test]
fn tick_without_players_is_refused() {
    let mut game = GameState::new(2, 3);
    game.players = vec![];
    assert_eq!(game.tick(), Err(EngineError::InvalidArgument));
    assert_eq!(game.phase, Phase::Step);
}

#[test]
fn tick_with_active_index_out_of_range_is_refused() {
    let mut game = GameState::new(2, 3);
    game.active_player = 2;
    assert_eq!(game.tick(), Err(EngineError::InvalidArgument));
    assert_eq!(game.phase, Phase::Step);
    assert_eq!(game.active_player, 2);
}

#[test]
fn tick_with_an_empty_trail_is_refused() {
    let mut game = GameState::new(2, 3);
    game.players[0].segments = vec![];
    assert!(!game.is_well_formed());
    assert_eq!(game.tick(), Err(EngineError::Internal));
    assert_eq!(game.players[0].segments.len(), 0);
    assert_eq!(game.phase, Phase::Step);
}

#[test]
fn tick_with_a_full_score_counter_is_refused() {
    let mut game = GameState::new(2, 3);
    game.players[1].score = u32::MAX;
    assert_eq!(game.tick(), Err(EngineError::Internal));
    assert_eq!(game.players[1].score, u32::MAX);
}

#[test]
fn tick_off_the_grid_is_refused() {
    let mut game = GameState::new(2, 3);
    game.grid_width = 0;
    assert_eq!(game.tick(), Err(EngineError::Internal));

    let mut game = GameState::new(2, 3);
    game.players[0].segments = vec![(Position { x: 40, y: 5 }, Direction::South)];
    assert!(!game.is_well_formed());
    assert_eq!(game.tick(), Err(EngineError::Internal));
}

#[test]
fn set_direction_turns_only_the_head() {
    let mut player = Player::new(Color::red(), Position { x: 3, y: 3 }, Direction::North);
    player.set_direction(Direction::East);
    assert_eq!(player.segments, vec![(Position { x: 3, y: 3 }, Direction::East)]);

    let mut player = Player {
        color: Color::red(),
        score: 0,
        segments: vec![
            (Position { x: 3, y: 3 }, Direction::North),
            (Position { x: 3, y: 2 }, Direction::North),
        ],
    };
    player.set_direction(Direction::West);
    assert_eq!(player.segments[0], (Position { x: 3, y: 3 }, Direction::North));
    assert_eq!(player.segments[1], (Position { x: 3, y: 2 }, Direction::West));

    let mut empty = Player { color: Color::red(), score: 0, segments: vec![] };
    empty.set_direction(Direction::South);
    assert!(empty.segments.is_empty());
}

#[test]
fn clone_is_deep_and_exact() {
    let mut game = GameState::new(2, 3);
    assert_eq!(game.tick(), Ok(()));
    let mut copy = game.clone();

    assert_eq!(copy.phase, game.phase);
    assert_eq!(copy.grid_width, game.grid_width);
    assert_eq!(copy.grid_height, game.grid_height);
    assert_eq!(copy.active_player, game.active_player);
    assert_eq!(copy.max_score, game.max_score);
    assert_eq!(copy.obstacles, game.obstacles);
    assert_eq!(copy.players.len(), game.players.len());
    for (a, b) in copy.players.iter().zip(game.players.iter()) {
        assert_eq!(a.color, b.color);
        assert_eq!(a.score, b.score);
        assert_eq!(a.segments, b.segments);
    }

    copy.players[0]
        .segments
        .push((Position { x: 0, y: 0 }, Direction::North));
    copy.obstacles.clear();
    assert_eq!(game.players[0].segments.len(), 2);
    assert_eq!(game.obstacles.len(), 116);
}
