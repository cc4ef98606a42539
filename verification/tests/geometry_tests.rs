use cordon::common::{direction_in_order, Color, Direction, Position};

#[test]
fn wrap_north_from_top_edge() {
    let p = Position { x: 0, y: 0 };
    let next = p.next(&Direction::North, 32, 28);
    assert_eq!(next, Position { x: 0, y: 27 });
}

#[test]
fn wrap_south_from_bottom_edge() {
    let p = Position { x: 7, y: 27 };
    let next = p.next(&Direction::South, 32, 28);
    assert_eq!(next, Position { x: 7, y: 0 });
}

#[test]
fn wrap_west_from_left_edge() {
    let p = Position { x: 0, y: 9 };
    let next = p.next(&Direction::West, 32, 28);
    assert_eq!(next, Position { x: 31, y: 9 });
}

#[test]
fn wrap_east_from_right_edge() {
    let p = Position { x: 31, y: 9 };
    let next = p.next(&Direction::East, 32, 28);
    assert_eq!(next, Position { x: 0, y: 9 });
}

#[test]
fn interior_moves_do_not_wrap() {
    let p = Position { x: 10, y: 10 };
    assert_eq!(p.next(&Direction::North, 32, 28), Position { x: 10, y: 9 });
    assert_eq!(p.next(&Direction::South, 32, 28), Position { x: 10, y: 11 });
    assert_eq!(p.next(&Direction::West, 32, 28), Position { x: 9, y: 10 });
    assert_eq!(p.next(&Direction::East, 32, 28), Position { x: 11, y: 10 });
}

#[test]
fn next_stays_in_range_all_over_the_grid() {
    let directions = [Direction::North, Direction::East, Direction::South, Direction::West];
    for x in 0..32 {
        for y in 0..28 {
            for d in directions.iter() {
                let next = Position { x, y }.next(d, 32, 28);
                assert!(next.x < 32 && next.y < 28);
            }
        }
    }
}

#[test]
fn canonical_direction_order() {
    assert_eq!(direction_in_order(0), Direction::North);
    assert_eq!(direction_in_order(1), Direction::East);
    assert_eq!(direction_in_order(2), Direction::South);
    assert_eq!(direction_in_order(3), Direction::West);
}

#[test]
fn color_constants() {
    assert_eq!(Color::black(), Color { r: 0, g: 0, b: 0 });
    assert_eq!(Color::white(), Color { r: 1000, g: 1000, b: 1000 });
    assert_eq!(Color::red(), Color { r: 1000, g: 0, b: 0 });
    assert_eq!(Color::green(), Color { r: 0, g: 1000, b: 0 });
    assert_eq!(Color::blue(), Color { r: 0, g: 0, b: 1000 });
    assert_eq!(Color::yellow(), Color { r: 1000, g: 1000, b: 0 });
    assert_eq!(Color::default(), Color { r: 0, g: 500, b: 0 });
    assert_eq!(Color::FULL, 1000);
    assert_eq!(Color::white().r, Color::FULL);
}

#[test]
fn darken_halves_every_channel() {
    assert_eq!(Color::red().darken(), Color { r: 500, g: 0, b: 0 });
    let c = Color { r: 1000, g: 500, b: 251 };
    assert_eq!(c.darken(), Color { r: 500, g: 250, b: 125 });
}

#[test]
fn lighten_scales_and_clamps() {
    let c = Color { r: 500, g: 0, b: 200 };
    assert_eq!(c.lighten(), Color { r: 750, g: 0, b: 300 });
    let bright = Color { r: 800, g: 1000, b: 667 };
    assert_eq!(bright.lighten(), Color { r: 1000, g: 1000, b: 1000 });
    assert_eq!(Color::black().lighten(), Color::black());
}
