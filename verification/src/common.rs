//! Grid geometry: compass directions, fixed-point colors, and positions with
//! wrap-around movement.

use vstd::prelude::*;

verus! {

/// A compass direction a player can face. The canonical enumeration order,
/// used wherever every direction is tried, is North, East, South, West; it is
/// given by [`direction_in_order`].
#[derive(Copy, Clone, Debug, PartialEq, Eq, Structural)]
pub enum Direction {
    North,
    South,
    West,
    East,
}

/// The canonical enumeration order of the four directions:
/// North, East, South, West.
pub open spec fn direction_order(i: int) -> Direction {
    if i == 0 {
        Direction::North
    } else if i == 1 {
        Direction::East
    } else if i == 2 {
        Direction::South
    } else {
        Direction::West
    }
}

/// The `i`-th direction in the canonical order North, East, South, West.
pub fn direction_in_order(i: usize) -> (d: Direction)
    requires
        i < 4,
    ensures
        d == direction_order(i as int),
{
    if i == 0 {
        Direction::North
    } else if i == 1 {
        Direction::East
    } else if i == 2 {
        Direction::South
    } else {
        Direction::West
    }
}

/// A color with three channels, each stored in thousandths: 0 is a dark
/// channel and [`Color::FULL`] (1000) a fully lit one. Fixed-point channels
/// keep the arithmetic on them exact.
#[derive(Copy, Clone, Debug, PartialEq, Eq, Structural)]
pub struct Color {
    pub r: u16,
    pub g: u16,
    pub b: u16,
}

impl Color {
    /// The value of a fully lit channel.
    pub const FULL: u16 = 1000;

    /// A channel value is valid when it does not exceed a fully lit channel.
    pub open spec fn wf(self) -> bool {
        self.r <= 1000 && self.g <= 1000 && self.b <= 1000
    }

    pub fn black() -> (c: Color)
        ensures
            c == (Color { r: 0, g: 0, b: 0 }),
    {
        Color { r: 0, g: 0, b: 0 }
    }

    pub fn white() -> (c: Color)
        ensures
            c == (Color { r: 1000, g: 1000, b: 1000 }),
    {
        Color { r: 1000, g: 1000, b: 1000 }
    }

    pub fn red() -> (c: Color)
        ensures
            c == (Color { r: 1000, g: 0, b: 0 }),
    {
        Color { r: 1000, g: 0, b: 0 }
    }

    pub fn green() -> (c: Color)
        ensures
            c == (Color { r: 0, g: 1000, b: 0 }),
    {
        Color { r: 0, g: 1000, b: 0 }
    }

    pub fn blue() -> (c: Color)
        ensures
            c == (Color { r: 0, g: 0, b: 1000 }),
    {
        Color { r: 0, g: 0, b: 1000 }
    }

    pub fn yellow() -> (c: Color)
        ensures
            c == (Color { r: 1000, g: 1000, b: 0 }),
    {
        Color { r: 1000, g: 1000, b: 0 }
    }

    /// Halve every channel, rounding down.
    pub fn darken(&self) -> (c: Color)
        ensures
            c.r == self.r / 2 && c.g == self.g / 2 && c.b == self.b / 2,
            self.wf() ==> c.wf(),
    {
        Color { r: self.r / 2, g: self.g / 2, b: self.b / 2 }
    }

    /// Multiply every channel by one and a half, rounding down and clamping
    /// at a fully lit channel.
    pub fn lighten(&self) -> (c: Color)
        ensures
            c.r == lighten_channel(self.r),
            c.g == lighten_channel(self.g),
            c.b == lighten_channel(self.b),
            c.wf(),
    {
        Color {
            r: lighten_one(self.r),
            g: lighten_one(self.g),
            b: lighten_one(self.b),
        }
    }
}

/// A channel multiplied by one and a half, rounded down, clamped at a fully
/// lit channel.
pub open spec fn lighten_channel(v: u16) -> u16 {
    if v * 3 / 2 > 1000 {
        1000
    } else {
        (v * 3 / 2) as u16
    }
}

fn lighten_one(v: u16) -> (r: u16)
    ensures
        r == lighten_channel(v),
{
    let scaled: u32 = v as u32 * 3 / 2;
    if scaled > 1000 {
        1000
    } else {
        scaled as u16
    }
}

impl Default for Color {
    /// The default color is a medium green.
    fn default() -> (c: Color)
        ensures
            c == (Color { r: 0, g: 500, b: 0 }),
    {
        Color { r: 0, g: 500, b: 0 }
    }
}

/// A cell of the grid: `0 <= x < width` left to right, `0 <= y < height` top
/// to bottom.
#[derive(Copy, Clone, Debug, PartialEq, Eq, Structural)]
pub struct Position {
    pub x: usize,
    pub y: usize,
}

/// Whether a position lies on a grid of the given dimensions.
pub open spec fn in_grid(p: Position, width: usize, height: usize) -> bool {
    p.x < width && p.y < height
}

/// The position one step from `p` in direction `d` on a `width` by `height`
/// grid, wrapping at every edge. North decreases `y`, West decreases `x`.
pub open spec fn next_position(p: Position, d: Direction, width: usize, height: usize) -> Position {
    match d {
        Direction::North => Position {
            x: p.x,
            y: if p.y == 0 {
                (height - 1) as usize
            } else {
                (p.y - 1) as usize
            },
        },
        Direction::South => Position {
            x: p.x,
            y: if p.y == height - 1 {
                0
            } else {
                (p.y + 1) as usize
            },
        },
        Direction::West => Position {
            x: if p.x == 0 {
                (width - 1) as usize
            } else {
                (p.x - 1) as usize
            },
            y: p.y,
        },
        Direction::East => Position {
            x: if p.x == width - 1 {
                0
            } else {
                (p.x + 1) as usize
            },
            y: p.y,
        },
    }
}

/// Wrap invariant: a step from a position on the grid lands on the grid
/// again, whatever the direction — wrapping never leaves the field.
pub proof fn lemma_next_in_grid(p: Position, d: Direction, width: usize, height: usize)
    requires
        width >= 1,
        height >= 1,
        in_grid(p, width, height),
    ensures
        in_grid(next_position(p, d, width, height), width, height),
{
}

impl Position {
    /// Determine the next position based on the current position and
    /// direction, wrapping to the opposite edge instead of leaving the grid.
    /// The result is always in range again.
    pub fn next(&self, direction: &Direction, width: usize, height: usize) -> (p: Position)
        requires
            width >= 1,
            height >= 1,
            in_grid(*self, width, height),
        ensures
            p == next_position(*self, *direction, width, height),
            in_grid(p, width, height),
    {
        match direction {
            Direction::North => Position {
                x: self.x,
                y: if self.y == 0 {
                    height - 1
                } else {
                    self.y - 1
                },
            },
            Direction::South => Position {
                x: self.x,
                y: if self.y == height - 1 {
                    0
                } else {
                    self.y + 1
                },
            },
            Direction::West => Position {
                x: if self.x == 0 {
                    width - 1
                } else {
                    self.x - 1
                },
                y: self.y,
            },
            Direction::East => Position {
                x: if self.x == width - 1 {
                    0
                } else {
                    self.x + 1
                },
                y: self.y,
            },
        }
    }
}

} // verus!
