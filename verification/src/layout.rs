//! Rendering support: the inference of a drawable wall shape for each trail
//! entry and each obstacle of the ring, and the grid of cells a renderer
//! draws. Nothing here feeds back into the simulation.

use vstd::prelude::*;

use crate::common::{in_grid, Color, Direction, Position};
use crate::game::{wall_ring, EngineError, GameState, Player, PlayerModel, StateModel};

verus! {

/// The drawable shape of a wall cell: a straight piece or one of the four
/// corners, named for the quadrant the corner opens towards.
#[derive(Copy, Clone, Debug, PartialEq, Eq, Structural)]
pub enum WallType {
    Horizontal,
    Vertical,
    CornerTopLeft,
    CornerTopRight,
    CornerBottomLeft,
    CornerBottomRight,
}

/// Why no wall shape can be inferred for a cell.
#[derive(Copy, Clone, Debug, PartialEq, Eq, Structural)]
pub enum ShapeError {
    /// Two adjacent trail entries record a 180-degree reversal. This is a
    /// designed rendering case — the cell is drawn as a collision — not a
    /// fault.
    Reversal,
    /// The neighbors of an obstacle stand in no arrangement the shape table
    /// covers: an invariant of the ring is broken.
    InvalidPlacement,
}

/// The shape of a trail cell whose entry records the heading `to`, where the
/// entry before it records `from`: straight pieces for a kept heading, a
/// fixed corner for each of the eight turns, and [`ShapeError::Reversal`] for
/// the four 180-degree reversals, which no adjacent trail entries can record.
pub open spec fn turn_shape(from: Direction, to: Direction) -> Result<WallType, ShapeError> {
    match (from, to) {
        (Direction::North, Direction::North) => Ok(WallType::Vertical),
        (Direction::South, Direction::South) => Ok(WallType::Vertical),
        (Direction::West, Direction::West) => Ok(WallType::Horizontal),
        (Direction::East, Direction::East) => Ok(WallType::Horizontal),
        (Direction::North, Direction::West) => Ok(WallType::CornerTopRight),
        (Direction::North, Direction::East) => Ok(WallType::CornerTopLeft),
        (Direction::South, Direction::West) => Ok(WallType::CornerBottomRight),
        (Direction::South, Direction::East) => Ok(WallType::CornerBottomLeft),
        (Direction::East, Direction::North) => Ok(WallType::CornerBottomRight),
        (Direction::East, Direction::South) => Ok(WallType::CornerTopRight),
        (Direction::West, Direction::North) => Ok(WallType::CornerBottomLeft),
        (Direction::West, Direction::South) => Ok(WallType::CornerTopLeft),
        (Direction::North, Direction::South) => Err(ShapeError::Reversal),
        (Direction::South, Direction::North) => Err(ShapeError::Reversal),
        (Direction::West, Direction::East) => Err(ShapeError::Reversal),
        (Direction::East, Direction::West) => Err(ShapeError::Reversal),
    }
}

/// The shape of trail entry `i`: the oldest entry always renders Vertical by
/// convention; every other entry renders the turn from the heading recorded
/// just before it to its own.
pub open spec fn trail_shape(segments: Seq<(Position, Direction)>, i: int) -> Result<
    WallType,
    ShapeError,
> {
    if i == 0 {
        Ok(WallType::Vertical)
    } else {
        turn_shape(segments[i - 1].1, segments[i].1)
    }
}

/// The shape of an obstacle from the positions of its cyclic neighbors in
/// the ring: a straight piece when both neighbors share its column or row,
/// a corner for the four covered bends, and
/// [`ShapeError::InvalidPlacement`] for every other arrangement.
pub open spec fn neighbor_shape(preceding: Position, current: Position, following: Position) -> Result<
    WallType,
    ShapeError,
> {
    if preceding.x == current.x && following.x == current.x {
        Ok(WallType::Vertical)
    } else if preceding.y == current.y && following.y == current.y {
        Ok(WallType::Horizontal)
    } else if preceding.y > current.y && following.x < current.x {
        Ok(WallType::CornerTopRight)
    } else if preceding.x > current.x && following.y > current.y {
        Ok(WallType::CornerTopLeft)
    } else if preceding.x < current.x && following.y < current.y {
        Ok(WallType::CornerBottomRight)
    } else if preceding.y < current.y && following.x > current.x {
        Ok(WallType::CornerBottomLeft)
    } else {
        Err(ShapeError::InvalidPlacement)
    }
}

/// The shape of obstacle `i` in the closed ring: its neighbors are the
/// entries before and after it, wrapping around the ends.
pub open spec fn ring_shape(obstacles: Seq<Position>, i: int) -> Result<WallType, ShapeError> {
    let preceding = if i == 0 {
        obstacles[obstacles.len() - 1]
    } else {
        obstacles[i - 1]
    };
    let following = if i == obstacles.len() - 1 {
        obstacles[0]
    } else {
        obstacles[i + 1]
    };
    neighbor_shape(preceding, obstacles[i], following)
}

impl WallType {
    /// Calculate the wall shape of trail entry `i` from the headings recorded
    /// at `i - 1` and `i`, as [`trail_shape`] states it. The oldest entry is
    /// Vertical by convention; a 180-degree reversal is reported as
    /// [`ShapeError::Reversal`], to be rendered as a collision.
    pub fn calculate_from_directions(i: usize, segments: &Vec<(Position, Direction)>) -> (shape:
        Result<WallType, ShapeError>)
        requires
            i < segments@.len(),
        ensures
            shape == trail_shape(segments@, i as int),
    {
        if i == 0 {
            return Ok(WallType::Vertical);
        }

        let from = segments[i - 1].1;
        let to = segments[i].1;

        match (from, to) {
            (Direction::North, Direction::North) => Ok(WallType::Vertical),
            (Direction::South, Direction::South) => Ok(WallType::Vertical),
            (Direction::West, Direction::West) => Ok(WallType::Horizontal),
            (Direction::East, Direction::East) => Ok(WallType::Horizontal),
            (Direction::North, Direction::West) => Ok(WallType::CornerTopRight),
            (Direction::North, Direction::East) => Ok(WallType::CornerTopLeft),
            (Direction::South, Direction::West) => Ok(WallType::CornerBottomRight),
            (Direction::South, Direction::East) => Ok(WallType::CornerBottomLeft),
            (Direction::East, Direction::North) => Ok(WallType::CornerBottomRight),
            (Direction::East, Direction::South) => Ok(WallType::CornerTopRight),
            (Direction::West, Direction::North) => Ok(WallType::CornerBottomLeft),
            (Direction::West, Direction::South) => Ok(WallType::CornerTopLeft),
            (Direction::North, Direction::South) => Err(ShapeError::Reversal),
            (Direction::South, Direction::North) => Err(ShapeError::Reversal),
            (Direction::West, Direction::East) => Err(ShapeError::Reversal),
            (Direction::East, Direction::West) => Err(ShapeError::Reversal),
        }
    }

    /// Calculate the wall shape of obstacle `i` from the positions of its
    /// cyclic neighbors in the ring, as [`ring_shape`] states it: the
    /// neighbor of the first obstacle is the last and the other way round.
    /// An arrangement outside the table is reported as
    /// [`ShapeError::InvalidPlacement`].
    pub fn calculate_from_positions(i: usize, obstacles: &Vec<Position>) -> (shape: Result<
        WallType,
        ShapeError,
    >)
        requires
            i < obstacles@.len(),
        ensures
            shape == ring_shape(obstacles@, i as int),
    {
        let current = obstacles[i];
        let preceding = if i == 0 {
            obstacles[obstacles.len() - 1]
        } else {
            obstacles[i - 1]
        };
        let following = if i == obstacles.len() - 1 {
            obstacles[0]
        } else {
            obstacles[i + 1]
        };

        if preceding.x == current.x && following.x == current.x {
            Ok(WallType::Vertical)
        } else if preceding.y == current.y && following.y == current.y {
            Ok(WallType::Horizontal)
        } else if preceding.y > current.y && following.x < current.x {
            Ok(WallType::CornerTopRight)
        } else if preceding.x > current.x && following.y > current.y {
            Ok(WallType::CornerTopLeft)
        } else if preceding.x < current.x && following.y < current.y {
            Ok(WallType::CornerBottomRight)
        } else if preceding.y < current.y && following.x > current.x {
            Ok(WallType::CornerBottomLeft)
        } else {
            Err(ShapeError::InvalidPlacement)
        }
    }
}

/// What a renderer draws into one grid cell.
#[derive(Copy, Clone, Debug, PartialEq, Eq, Structural)]
pub enum Cell {
    /// A wall piece: an obstacle or a trail segment, in the owner's color.
    Wall(WallType, Color),
    /// A player's head, facing the direction, in the player's color.
    Player(Direction, Color),
    /// The marker for a collision, either just scored or recorded as a
    /// reversal inside a trail.
    Collision,
    /// A single character, for overlays.
    Letter(char, Color),
    /// Nothing here.
    Empty,
}

impl Cell {
    /// The head cell of a player: its facing and its color.
    pub fn head_from_player(player: &Player) -> (cell: Cell)
        requires
            player@.segments.len() > 0,
        ensures
            cell == Cell::Player(player@.head().1, player@.color),
    {
        let n = player.segments.len();
        let (_, direction) = player.segments[n - 1];
        Cell::Player(direction, player.color)
    }
}

/// The all-empty cell grid of the given dimensions, row by row.
pub open spec fn empty_grid(width: usize, height: usize) -> Seq<Seq<Cell>> {
    Seq::new(height as nat, |y: int| Seq::new(width as nat, |x: int| Cell::Empty))
}

/// The grid with the cell at `p` replaced by `cell`.
pub open spec fn grid_write(g: Seq<Seq<Cell>>, p: Position, cell: Cell) -> Seq<Seq<Cell>> {
    g.update(p.y as int, g[p.y as int].update(p.x as int, cell))
}

/// A grid of exactly `height` rows of `width` cells each.
pub open spec fn dims_ok(g: Seq<Seq<Cell>>, width: int, height: int) -> bool {
    g.len() == height && forall|y: int| 0 <= y < g.len() ==> (#[trigger] g[y]).len() == width
}

/// The grid after the first `n` obstacles are drawn, each as the wall shape
/// its ring neighbors give it, in the default color.
pub open spec fn with_obstacles(g: Seq<Seq<Cell>>, obstacles: Seq<Position>, n: int) -> Seq<
    Seq<Cell>,
>
    decreases n,
{
    if n <= 0 {
        g
    } else {
        grid_write(
            with_obstacles(g, obstacles, n - 1),
            obstacles[n - 1],
            Cell::Wall(ring_shape(obstacles, n - 1)->Ok_0, Color { r: 0, g: 500, b: 0 }),
        )
    }
}

/// What trail entry `j` of a player draws: the head as the player's facing
/// marker, an older entry as its wall shape in the player's color, and an
/// entry whose shape is a recorded reversal as the collision marker.
pub open spec fn player_cell(p: PlayerModel, j: int) -> Cell {
    if j == p.segments.len() - 1 {
        Cell::Player(p.segments[j].1, p.color)
    } else {
        match trail_shape(p.segments, j) {
            Ok(shape) => Cell::Wall(shape, p.color),
            Err(_) => Cell::Collision,
        }
    }
}

/// The grid after the first `n` trail entries of one player are drawn.
pub open spec fn with_player(g: Seq<Seq<Cell>>, p: PlayerModel, n: int) -> Seq<Seq<Cell>>
    decreases n,
{
    if n <= 0 {
        g
    } else {
        grid_write(with_player(g, p, n - 1), p.segments[n - 1].0, player_cell(p, n - 1))
    }
}

/// The grid after the trails of the first `n` players are drawn.
pub open spec fn with_players(g: Seq<Seq<Cell>>, players: Seq<PlayerModel>, n: int) -> Seq<
    Seq<Cell>,
>
    decreases n,
{
    if n <= 0 {
        g
    } else {
        with_player(
            with_players(g, players, n - 1),
            players[n - 1],
            players[n - 1].segments.len() as int,
        )
    }
}

/// The cell grid a renderer draws for a snapshot: obstacles first, then each
/// player's trail with its head on top, in order, and finally the collision
/// marker over the active player's head if it has collided. A later write
/// wins where cells coincide.
pub open spec fn rendered(s: StateModel) -> Seq<Seq<Cell>> {
    let walls = with_obstacles(
        empty_grid(s.grid_width, s.grid_height),
        s.obstacles,
        s.obstacles.len() as int,
    );
    let populated = with_players(walls, s.players, s.players.len() as int);
    if s.collides() {
        grid_write(populated, s.active_head(), Cell::Collision)
    } else {
        populated
    }
}

/// A ring whose every obstacle yields a wall shape.
pub open spec fn ring_shapes_ok(obstacles: Seq<Position>) -> bool {
    forall|k: int| 0 <= k < obstacles.len() ==> (#[trigger] ring_shape(obstacles, k)) is Ok
}

/// A snapshot the renderer can draw on a `width` by `height` grid: the state
/// is well formed, the dimensions are the state's own, and every obstacle of
/// the ring yields a wall shape.
pub open spec fn renderable(s: StateModel, width: int, height: int) -> bool {
    &&& s.wf()
    &&& width == s.grid_width
    &&& height == s.grid_height
    &&& ring_shapes_ok(s.obstacles)
}

/// The position at index `k` of the boundary ring of a `width` by `height`
/// grid, written as one closed form over the four edges.
spec fn ring_entry(width: usize, height: usize, k: int) -> Position {
    let w = width as int;
    let h = height as int;
    if k < w - 2 {
        Position { x: (w - 2 - k) as usize, y: 0 }
    } else if k < w - 2 + h {
        Position { x: 0, y: (k - (w - 2)) as usize }
    } else if k < 2 * (w - 2) + h {
        Position { x: (k - (w - 2) - h + 1) as usize, y: (h - 1) as usize }
    } else {
        Position { x: (w - 1) as usize, y: (h - 1 - (k - (2 * (w - 2) + h))) as usize }
    }
}

/// The boundary ring, entry by entry, is [`ring_entry`]'s closed form.
proof fn lemma_ring_entry(width: usize, height: usize, k: int)
    requires
        width >= 2,
        height >= 2,
        0 <= k < wall_ring(width, height).len(),
    ensures
        wall_ring(width, height)[k] == ring_entry(width, height, k),
{
    let w = width as int;
    let h = height as int;
    let s1 = Seq::new((width - 2) as nat, |i: int| Position { x: (width - 2 - i) as usize, y: 0 });
    let s2 = Seq::new(height as nat, |i: int| Position { x: 0, y: i as usize });
    let s3 = Seq::new(
        (width - 2) as nat,
        |i: int| Position { x: (i + 1) as usize, y: (height - 1) as usize },
    );
    let s4 = Seq::new(
        height as nat,
        |i: int| Position { x: (width - 1) as usize, y: (height - 1 - i) as usize },
    );
    assert(wall_ring(width, height) == s1 + s2 + s3 + s4);
    if k < w - 2 {
        assert((s1 + s2 + s3 + s4)[k] == s1[k]);
    } else if k < w - 2 + h {
        assert((s1 + s2 + s3 + s4)[k] == s2[k - (w - 2)]);
    } else if k < 2 * (w - 2) + h {
        assert((s1 + s2 + s3 + s4)[k] == s3[k - (w - 2) - h]);
    } else {
        assert((s1 + s2 + s3 + s4)[k] == s4[k - (2 * (w - 2) + h)]);
    }
}

/// The ring that [`generate_wall`] lays out is always renderable: every one
/// of its obstacles yields a wall shape from its neighbors — straight pieces
/// along the edges and the four corners where the edges meet.
pub proof fn lemma_generated_ring_shapes(width: usize, height: usize)
    requires
        width >= 2,
        height >= 2,
    ensures
        ring_shapes_ok(wall_ring(width, height)),
{
    let ring = wall_ring(width, height);
    let n = ring.len() as int;
    assert forall|k: int| 0 <= k < n implies (#[trigger] ring_shape(ring, k)) is Ok by {
        let prev_i = if k == 0 {
            n - 1
        } else {
            k - 1
        };
        let next_i = if k == n - 1 {
            0
        } else {
            k + 1
        };
        lemma_ring_entry(width, height, k);
        lemma_ring_entry(width, height, prev_i);
        lemma_ring_entry(width, height, next_i);
        assert(ring_shape(ring, k) is Ok);
    }
}

/// A well-formed state whose obstacle ring is the generated boundary — as
/// both a fresh game and every round reset leave it — can always be drawn at
/// its own dimensions.
pub proof fn lemma_boundary_state_renderable(s: StateModel)
    requires
        s.wf(),
        s.obstacles == wall_ring(s.grid_width, s.grid_height),
    ensures
        renderable(s, s.grid_width as int, s.grid_height as int),
{
    lemma_generated_ring_shapes(s.grid_width, s.grid_height);
}

/// The cell grid a renderer reads: the snapshot of an engine state, rendered
/// as [`rendered`] states.
pub struct Grid {
    data: Vec<Vec<Cell>>,
}

impl View for Grid {
    type V = Seq<Seq<Cell>>;

    closed spec fn view(&self) -> Seq<Seq<Cell>> {
        self.data@.map_values(|row: Vec<Cell>| row@)
    }
}

/// The all-empty data of a fresh grid.
fn init_data(width: usize, height: usize) -> (data: Vec<Vec<Cell>>)
    ensures
        data@.map_values(|row: Vec<Cell>| row@) == empty_grid(width, height),
{
    let mut data: Vec<Vec<Cell>> = Vec::new();
    let mut y: usize = 0;
    while y < height
        invariant
            y <= height,
            data@.len() == y,
            forall|t: int| 0 <= t < y ==> (#[trigger] data@[t]@) =~= Seq::new(
                width as nat,
                |x: int| Cell::Empty,
            ),
        decreases height - y,
    {
        let mut row: Vec<Cell> = Vec::new();
        let mut x: usize = 0;
        while x < width
            invariant
                x <= width,
                row@.len() == x,
                forall|t: int| 0 <= t < x ==> row@[t] == Cell::Empty,
            decreases width - x,
        {
            row.push(Cell::Empty);
            x = x + 1;
        }
        proof {
            assert(row@ =~= Seq::new(width as nat, |x: int| Cell::Empty));
        }
        data.push(row);
        y = y + 1;
    }
    proof {
        assert(data@.map_values(|row: Vec<Cell>| row@) =~= empty_grid(width, height));
    }
    data
}

impl Grid {
    /// The model's rows are the data's rows, element for element.
    proof fn lemma_rows_model(&self)
        ensures
            self@.len() == self.data@.len(),
            forall|y: int| 0 <= y < self.data@.len() ==> #[trigger] self@[y] == self.data@[y]@,
    {
    }

    /// Replace the cell at `p`.
    fn set_cell(&mut self, p: Position, cell: Cell)
        requires
            p.y < old(self)@.len(),
            p.x < old(self)@[p.y as int].len(),
        ensures
            final(self)@ == grid_write(old(self)@, p, cell),
            final(self)@.len() == old(self)@.len(),
            forall|y: int|
                0 <= y < old(self)@.len() ==> (#[trigger] final(self)@[y]).len() == old(
                    self,
                )@[y].len(),
    {
        proof {
            self.lemma_rows_model();
            assert(self@[p.y as int] == self.data@[p.y as int]@);
        }
        let row = &mut self.data[p.y];
        row[p.x] = cell;
        proof {
            self.lemma_rows_model();
            assert(self@[p.y as int] == self.data@[p.y as int]@);
            assert(self@[p.y as int] =~= grid_write(old(self)@, p, cell)[p.y as int]);
            assert forall|y: int| 0 <= y < self@.len() && y != p.y implies #[trigger] self@[y]
                == old(self)@[y] by {
                assert(self@[y] == self.data@[y]@);
                assert(old(self)@[y] == self.data@[y]@);
            }
            assert(final(self)@ =~= grid_write(old(self)@, p, cell));
        }
    }

    /// Draw every obstacle of the ring as its wall shape, in the default
    /// color.
    fn place_obstacles(&mut self, game_state: &GameState)
        requires
            game_state@.wf(),
            ring_shapes_ok(game_state@.obstacles),
            dims_ok(old(self)@, game_state.grid_width as int, game_state.grid_height as int),
        ensures
            final(self)@ == with_obstacles(
                old(self)@,
                game_state@.obstacles,
                game_state@.obstacles.len() as int,
            ),
            dims_ok(final(self)@, game_state.grid_width as int, game_state.grid_height as int),
    {
        let mut k: usize = 0;
        while k < game_state.obstacles.len()
            invariant
                k <= game_state@.obstacles.len(),
                game_state@.wf(),
                ring_shapes_ok(game_state@.obstacles),
                dims_ok(self@, game_state.grid_width as int, game_state.grid_height as int),
                self@ == with_obstacles(old(self)@, game_state@.obstacles, k as int),
            decreases game_state@.obstacles.len() - k,
        {
            let obstacle = game_state.obstacles[k];
            proof {
                assert(ring_shape(game_state@.obstacles, k as int) is Ok);
                assert(in_grid(
                    game_state@.obstacles[k as int],
                    game_state.grid_width,
                    game_state.grid_height,
                ));
            }
            let shape = match WallType::calculate_from_positions(k, &game_state.obstacles) {
                Ok(shape) => shape,
                Err(_) => {
                    proof {
                        assert(false);
                    }
                    WallType::Vertical
                },
            };
            self.set_cell(obstacle, Cell::Wall(shape, Color::default()));
            k = k + 1;
        }
    }

    /// Draw every player's trail, oldest entry first, the head last.
    fn place_players(&mut self, game_state: &GameState)
        requires
            game_state@.wf(),
            dims_ok(old(self)@, game_state.grid_width as int, game_state.grid_height as int),
        ensures
            final(self)@ == with_players(
                old(self)@,
                game_state@.players,
                game_state@.players.len() as int,
            ),
            dims_ok(final(self)@, game_state.grid_width as int, game_state.grid_height as int),
    {
        let mut i: usize = 0;
        while i < game_state.players.len()
            invariant
                i <= game_state@.players.len(),
                game_state@.wf(),
                dims_ok(self@, game_state.grid_width as int, game_state.grid_height as int),
                self@ == with_players(old(self)@, game_state@.players, i as int),
            decreases game_state@.players.len() - i,
        {
            proof {
                game_state.lemma_players_model();
                assert(game_state@.players[i as int] == game_state.players@[i as int]@);
                assert(game_state@.players[i as int].wf(
                    game_state.grid_width,
                    game_state.grid_height,
                ));
            }
            let player = &game_state.players[i];
            let n = player.segments.len();
            let ghost base = self@;
            let mut j: usize = 0;
            while j < n
                invariant
                    j <= n,
                    i < game_state@.players.len(),
                    game_state@.wf(),
                    player@ == game_state@.players[i as int],
                    n == player@.segments.len(),
                    dims_ok(self@, game_state.grid_width as int, game_state.grid_height as int),
                    self@ == with_player(base, game_state@.players[i as int], j as int),
                decreases n - j,
            {
                let (position, _) = player.segments[j];
                let cell = if j == n - 1 {
                    Cell::head_from_player(player)
                } else {
                    match WallType::calculate_from_directions(j, &player.segments) {
                        Ok(shape) => Cell::Wall(shape, player.color),
                        Err(_) => Cell::Collision,
                    }
                };
                proof {
                    assert(cell == player_cell(game_state@.players[i as int], j as int));
                    assert(in_grid(position, game_state.grid_width, game_state.grid_height));
                }
                self.set_cell(position, cell);
                j = j + 1;
            }
            i = i + 1;
        }
    }

    /// Draw the collision marker over the active player's head if it has
    /// collided.
    fn place_collision(&mut self, game_state: &GameState)
        requires
            game_state@.wf(),
            dims_ok(old(self)@, game_state.grid_width as int, game_state.grid_height as int),
        ensures
            final(self)@ == if game_state@.collides() {
                grid_write(old(self)@, game_state@.active_head(), Cell::Collision)
            } else {
                old(self)@
            },
            dims_ok(final(self)@, game_state.grid_width as int, game_state.grid_height as int),
    {
        proof {
            game_state.lemma_players_model();
            assert(game_state@.players[game_state.active_player as int] == game_state.players@[
                game_state.active_player as int
            ]@);
            assert(game_state@.players[game_state.active_player as int].wf(
                game_state.grid_width,
                game_state.grid_height,
            ));
        }
        if game_state.has_collision() {
            let n = game_state.players[game_state.active_player].segments.len();
            let (position, _) = game_state.players[game_state.active_player].segments[n - 1];
            proof {
                assert(position == game_state@.active_head());
                assert(in_grid(position, game_state.grid_width, game_state.grid_height));
            }
            self.set_cell(position, Cell::Collision);
        }
    }

    /// Draw a whole snapshot onto the grid: obstacles, trails, collision
    /// marker, in that order of precedence.
    fn place_objects(&mut self, game_state: &GameState)
        requires
            game_state@.wf(),
            ring_shapes_ok(game_state@.obstacles),
            dims_ok(old(self)@, game_state.grid_width as int, game_state.grid_height as int),
        ensures
            final(self)@ == ({
                let walls = with_obstacles(
                    old(self)@,
                    game_state@.obstacles,
                    game_state@.obstacles.len() as int,
                );
                let populated = with_players(
                    walls,
                    game_state@.players,
                    game_state@.players.len() as int,
                );
                if game_state@.collides() {
                    grid_write(populated, game_state@.active_head(), Cell::Collision)
                } else {
                    populated
                }
            }),
            dims_ok(final(self)@, game_state.grid_width as int, game_state.grid_height as int),
    {
        self.place_obstacles(game_state);
        self.place_players(game_state);
        self.place_collision(game_state);
    }

    /// Render a snapshot of the engine as a fresh cell grid. The dimensions
    /// must be the snapshot's own; a snapshot that is not well formed, or
    /// whose ring yields no shape for some obstacle, is refused as a whole
    /// with [`EngineError::Internal`] rather than drawn in part.
    pub fn new(width: usize, height: usize, game_state: &GameState) -> (grid: Result<
        Grid,
        EngineError,
    >)
        ensures
            grid is Ok <==> renderable(game_state@, width as int, height as int),
            grid is Ok ==> grid->Ok_0@ == rendered(game_state@),
            grid is Ok ==> dims_ok(grid->Ok_0@, width as int, height as int),
            grid is Err ==> grid->Err_0 == EngineError::Internal,
    {
        if !game_state.is_well_formed() {
            return Err(EngineError::Internal);
        }
        if width != game_state.grid_width || height != game_state.grid_height {
            return Err(EngineError::Internal);
        }
        let mut k: usize = 0;
        while k < game_state.obstacles.len()
            invariant
                k <= game_state@.obstacles.len(),
                forall|t: int|
                    0 <= t < k ==> (#[trigger] ring_shape(game_state@.obstacles, t)) is Ok,
            decreases game_state@.obstacles.len() - k,
        {
            match WallType::calculate_from_positions(k, &game_state.obstacles) {
                Ok(_) => {},
                Err(_) => {
                    proof {
                        assert(ring_shape(game_state@.obstacles, k as int) is Err);
                    }
                    return Err(EngineError::Internal);
                },
            }
            k = k + 1;
        }
        proof {
            assert(ring_shapes_ok(game_state@.obstacles));
        }
        let mut grid = Grid { data: init_data(width, height) };
        proof {
            assert(dims_ok(grid@, width as int, height as int)) by {
                assert forall|y: int| 0 <= y < grid@.len() implies (#[trigger] grid@[y]).len()
                    == width by {
                    assert(grid@[y] == empty_grid(width, height)[y]);
                }
            }
        }
        grid.place_objects(game_state);
        Ok(grid)
    }

    /// Render a new snapshot into this grid, keeping its dimensions: the
    /// grid is replaced as a whole when the snapshot can be drawn and left
    /// untouched when it is refused.
    pub fn reset(&mut self, game_state: &GameState) -> (r: Result<(), EngineError>)
        requires
            old(self)@.len() >= 1,
        ensures
            r is Ok <==> renderable(
                game_state@,
                old(self)@[0].len() as int,
                old(self)@.len() as int,
            ),
            r is Ok ==> final(self)@ == rendered(game_state@),
            r is Err ==> final(self)@ == old(self)@ && r->Err_0 == EngineError::Internal,
    {
        proof {
            self.lemma_rows_model();
            assert(self@[0] == self.data@[0]@);
        }
        let height = self.data.len();
        let width = self.data[0].len();
        match Grid::new(width, height, game_state) {
            Ok(grid) => {
                *self = grid;
                Ok(())
            },
            Err(e) => Err(e),
        }
    }

    /// The rendered cells, row by row from the top, each row left to right.
    pub fn get_data(&self) -> (data: &Vec<Vec<Cell>>)
        ensures
            data@.map_values(|row: Vec<Cell>| row@) == self@,
            data@.len() == self@.len(),
            forall|y: int| 0 <= y < data@.len() ==> (#[trigger] data@[y])@ == self@[y],
    {
        proof {
            self.lemma_rows_model();
        }
        &self.data
    }
}

/// Copy a row of cells, cell for cell.
fn copy_row(row: &Vec<Cell>) -> (copy: Vec<Cell>)
    ensures
        copy@ == row@,
{
    let mut copy: Vec<Cell> = Vec::new();
    let mut x: usize = 0;
    while x < row.len()
        invariant
            x <= row@.len(),
            copy@ == row@.take(x as int),
        decreases row@.len() - x,
    {
        copy.push(row[x]);
        proof {
            assert(copy@ =~= row@.take(x + 1 as int));
        }
        x = x + 1;
    }
    proof {
        assert(copy@ =~= row@);
    }
    copy
}

impl Clone for Grid {
    /// An exact copy: the clone renders the same cells.
    fn clone(&self) -> (copy: Grid)
        ensures
            copy@ == self@,
    {
        let mut data: Vec<Vec<Cell>> = Vec::new();
        let mut y: usize = 0;
        while y < self.data.len()
            invariant
                y <= self.data@.len(),
                data@.len() == y,
                forall|t: int| 0 <= t < y ==> #[trigger] data@[t]@ == self.data@[t]@,
            decreases self.data@.len() - y,
        {
            data.push(copy_row(&self.data[y]));
            y = y + 1;
        }
        let copy = Grid { data };
        proof {
            copy.lemma_rows_model();
            self.lemma_rows_model();
            assert(copy@ =~= self@);
        }
        copy
    }
}

} // verus!
