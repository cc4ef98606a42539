use cordon::common::{Color, Direction, Position};
use cordon::game::{EngineError, GameState, Phase, Player};
use cordon::layout::{Cell, Grid, ShapeError, WallType};

fn seg(x: usize, y: usize, d: Direction) -> (Position, Direction) {
    (Position { x, y }, d)
}

#[test]
fn trail_index_zero_is_always_vertical() {
    for d in [Direction::North, Direction::East, Direction::South, Direction::West] {
        let segments = vec![seg(4, 4, d), seg(4, 5, Direction::South)];
        assert_eq!(
            WallType::calculate_from_directions(0, &segments),
            Ok(WallType::Vertical)
        );
    }
}

#[test]
fn north_to_west_turns_a_corner_but_a_reversal_is_a_collision() {
    let turn = vec![seg(5, 5, Direction::North), seg(5, 4, Direction::West)];
    assert_eq!(
        WallType::calculate_from_directions(1, &turn),
        Ok(WallType::CornerTopRight)
    );

    let reversal = vec![seg(5, 5, Direction::North), seg(5, 4, Direction::South)];
    assert_eq!(
        WallType::calculate_from_directions(1, &reversal),
        Err(ShapeError::Reversal)
    );
}

#[test]
fn turn_table_spot_checks() {
    let pairs = [
        (Direction::East, Direction::East, Ok(WallType::Horizontal)),
        (Direction::West, Direction::West, Ok(WallType::Horizontal)),
        (Direction::South, Direction::South, Ok(WallType::Vertical)),
        (Direction::South, Direction::East, Ok(WallType::CornerBottomLeft)),
        (Direction::South, Direction::West, Ok(WallType::CornerBottomRight)),
        (Direction::West, Direction::North, Ok(WallType::CornerBottomLeft)),
        (Direction::East, Direction::South, Ok(WallType::CornerTopRight)),
        (Direction::North, Direction::East, Ok(WallType::CornerTopLeft)),
        (Direction::West, Direction::East, Err(ShapeError::Reversal)),
        (Direction::East, Direction::West, Err(ShapeError::Reversal)),
        (Direction::South, Direction::North, Err(ShapeError::Reversal)),
    ];
    for (from, to, expected) in pairs {
        let segments = vec![seg(5, 5, from), seg(6, 5, to)];
        assert_eq!(WallType::calculate_from_directions(1, &segments), expected);
    }
}

#[test]
fn ring_corners_of_a_two_by_two_ring() {
    let ring = vec![
        Position { x: 0, y: 0 },
        Position { x: 0, y: 1 },
        Position { x: 1, y: 1 },
        Position { x: 1, y: 0 },
    ];
    assert_eq!(
        WallType::calculate_from_positions(0, &ring),
        Ok(WallType::CornerTopLeft)
    );
    assert_eq!(
        WallType::calculate_from_positions(1, &ring),
        Ok(WallType::CornerBottomLeft)
    );
    assert_eq!(
        WallType::calculate_from_positions(2, &ring),
        Ok(WallType::CornerBottomRight)
    );
    assert_eq!(
        WallType::calculate_from_positions(3, &ring),
        Ok(WallType::CornerTopRight)
    );
}

#[test]
fn ring_edges_are_straight() {
    let game = GameState::new(2, 3);
    // Index 15 lies inside the top edge, index 43 inside the left edge.
    assert_eq!(game.obstacles[15], Position { x: 15, y: 0 });
    assert_eq!(
        WallType::calculate_from_positions(15, &game.obstacles),
        Ok(WallType::Horizontal)
    );
    assert_eq!(game.obstacles[43], Position { x: 0, y: 13 });
    assert_eq!(
        WallType::calculate_from_positions(43, &game.obstacles),
        Ok(WallType::Vertical)
    );
}

#[test]
fn degenerate_neighbors_are_an_invalid_placement() {
    let ring = vec![
        Position { x: 6, y: 5 },
        Position { x: 5, y: 5 },
        Position { x: 5, y: 4 },
    ];
    assert_eq!(
        WallType::calculate_from_positions(1, &ring),
        Err(ShapeError::InvalidPlacement)
    );
}

#[test]
fn head_cell_carries_facing_and_color() {
    let player = Player::new(Color::blue(), Position { x: 2, y: 9 }, Direction::West);
    assert_eq!(
        Cell::head_from_player(&player),
        Cell::Player(Direction::West, Color::blue())
    );
}

#[test]
fn fresh_game_renders_ring_heads_and_empty_cells() {
    let game = GameState::new(2, 3);
    let grid = Grid::new(32, 28, &game).unwrap();
    let data = grid.get_data();
    assert_eq!(data.len(), 28);
    for row in data.iter() {
        assert_eq!(row.len(), 32);
    }
    let wall_color = Color::default();
    assert_eq!(data[0][0], Cell::Wall(WallType::CornerTopLeft, wall_color));
    assert_eq!(data[27][0], Cell::Wall(WallType::CornerBottomLeft, wall_color));
    assert_eq!(data[0][15], Cell::Wall(WallType::Horizontal, wall_color));
    assert_eq!(data[13][0], Cell::Wall(WallType::Vertical, wall_color));
    assert_eq!(data[10][10], Cell::Player(Direction::South, Color::red()));
    assert_eq!(data[20][20], Cell::Player(Direction::North, Color::blue()));
    assert_eq!(data[5][5], Cell::Empty);
}

#[test]
fn trail_renders_behind_the_moving_head() {
    let mut game = GameState::new(2, 3);
    assert_eq!(game.tick(), Ok(()));
    let grid = Grid::new(32, 28, &game).unwrap();
    let data = grid.get_data();
    assert_eq!(data[10][10], Cell::Wall(WallType::Vertical, Color::red()));
    assert_eq!(data[11][10], Cell::Player(Direction::South, Color::red()));
}

#[test]
fn collision_marker_overrides_the_wall() {
    let mut game = GameState::new(2, 3);
    game.players[0].segments = vec![(Position { x: 1, y: 1 }, Direction::West)];
    assert_eq!(game.tick(), Ok(()));
    assert_eq!(game.phase, Phase::Score);
    let grid = Grid::new(32, 28, &game).unwrap();
    let data = grid.get_data();
    assert_eq!(data[1][0], Cell::Collision);
}

#[test]
fn recorded_reversal_renders_as_collision() {
    let mut game = GameState::new(2, 3);
    game.players[0].segments = vec![
        seg(5, 5, Direction::North),
        seg(5, 4, Direction::South),
        seg(5, 5, Direction::South),
    ];
    let grid = Grid::new(32, 28, &game).unwrap();
    let data = grid.get_data();
    assert_eq!(data[4][5], Cell::Collision);
}

#[test]
fn grid_refuses_foreign_dimensions_and_broken_states() {
    let game = GameState::new(2, 3);
    assert!(matches!(Grid::new(10, 28, &game), Err(EngineError::Internal)));

    let mut broken = GameState::new(2, 3);
    broken.players = vec![];
    assert!(matches!(Grid::new(32, 28, &broken), Err(EngineError::Internal)));

    let mut off = GameState::new(2, 3);
    off.players[0].segments = vec![seg(40, 5, Direction::South)];
    assert!(matches!(Grid::new(32, 28, &off), Err(EngineError::Internal)));
}

#[test]
fn reset_redraws_the_new_snapshot() {
    let mut game = GameState::new(2, 3);
    let mut grid = Grid::new(32, 28, &game).unwrap();
    assert_eq!(game.tick(), Ok(()));
    assert_eq!(grid.reset(&game), Ok(()));
    let fresh = Grid::new(32, 28, &game).unwrap();
    assert_eq!(grid.get_data(), fresh.get_data());

    let mut broken = GameState::new(2, 3);
    broken.grid_width = 12;
    assert_eq!(grid.reset(&broken), Err(EngineError::Internal));
    assert_eq!(grid.get_data(), fresh.get_data());
}

#[test]
fn grid_clone_renders_the_same_cells() {
    let game = GameState::new(2, 3);
    let grid = Grid::new(32, 28, &game).unwrap();
    let copy = grid.clone();
    assert_eq!(copy.get_data(), grid.get_data());
}
