//! The round state machine: players with trails, the obstacle ring, and the
//! `tick` transition that advances the active player, detects collisions,
//! scores them, and resets rounds until a player reaches the target score.

use vstd::prelude::*;

use crate::common::{in_grid, next_position, Color, Direction, Position};

verus! {

/// How a call on the engine can fail instead of touching the state.
#[derive(Copy, Clone, Debug, PartialEq, Eq, Structural)]
pub enum EngineError {
    /// The caller asked for something the engine cannot do: no players, or an
    /// active-player index past the end of the player list.
    InvalidArgument,
    /// The state breaks an engine invariant (an empty trail, a coordinate off
    /// the grid, a score with no room left to count): the tick is refused as
    /// a whole rather than applied in part.
    Internal,
}

/// One contestant: a color for rendering, a score, and the trail of
/// (position, direction) pairs it has occupied, oldest first, head last.
#[derive(Debug)]
pub struct Player {
    pub color: Color,
    pub score: u32,
    pub segments: Vec<(Position, Direction)>,
}

/// The mathematical value of a [`Player`]: the same fields with the trail as
/// a sequence.
#[verifier::ext_equal]
pub ghost struct PlayerModel {
    pub color: Color,
    pub score: u32,
    pub segments: Seq<(Position, Direction)>,
}

impl View for Player {
    type V = PlayerModel;

    open spec fn view(&self) -> PlayerModel {
        PlayerModel { color: self.color, score: self.score, segments: self.segments@ }
    }
}

impl PlayerModel {
    /// The newest trail entry: the player's current position and facing.
    pub open spec fn head(self) -> (Position, Direction) {
        self.segments.last()
    }

    /// A player is well formed on a `width` by `height` grid when its trail
    /// is not empty, every trail position lies on the grid, and its score can
    /// still be counted up.
    pub open spec fn wf(self, width: usize, height: usize) -> bool {
        &&& self.segments.len() > 0
        &&& self.score < u32::MAX
        &&& forall|j: int|
            0 <= j < self.segments.len() ==> in_grid(#[trigger] self.segments[j].0, width, height)
    }
}

impl Player {
    /// A new player with a score of zero and a trail of exactly one entry.
    pub fn new(color: Color, position: Position, direction: Direction) -> (p: Player)
        ensures
            p@ == (PlayerModel { color, score: 0, segments: seq![(position, direction)] }),
    {
        let mut segments: Vec<(Position, Direction)> = Vec::new();
        segments.push((position, direction));
        proof {
            assert(segments@ =~= seq![(position, direction)]);
            assert(Player { color, score: 0, segments }@ =~= PlayerModel {
                color,
                score: 0,
                segments: seq![(position, direction)],
            });
        }
        Player { color, score: 0, segments }
    }

    /// Turn the head of the trail to face `direction`, without moving: input
    /// handling records the intended move here and the next step carries it
    /// out. A player with no trail is left unchanged.
    pub fn set_direction(&mut self, direction: Direction)
        ensures
            final(self)@ == old(self)@.with_heading(direction),
    {
        let n = self.segments.len();
        if n > 0 {
            let head_position = self.segments[n - 1].0;
            self.segments[n - 1] = (head_position, direction);
        }
        proof {
            assert(final(self)@ =~= old(self)@.with_heading(direction));
        }
    }
}

impl PlayerModel {
    /// The player with its head turned to face `direction`; a player with no
    /// trail is unchanged.
    pub open spec fn with_heading(self, direction: Direction) -> PlayerModel {
        if self.segments.len() == 0 {
            self
        } else {
            PlayerModel {
                segments: self.segments.update(
                    self.segments.len() - 1,
                    (self.head().0, direction),
                ),
                ..self
            }
        }
    }
}

/// The top-level state of the engine, gating what a tick does.
#[derive(Copy, Clone, Debug, PartialEq, Eq, Structural)]
pub enum Phase {
    /// Normal play: each tick advances one player.
    Step,
    /// A collision was just scored; the next tick resets the round. The pause
    /// lets a renderer show the collision before play resumes.
    Score,
    /// A player reached the target score; ticks no longer do anything.
    GameOver,
}

/// The engine: the phase, the grid, the players, whose turn it is, the
/// obstacle ring around the field, and the score that ends the game.
#[derive(Debug)]
pub struct GameState {
    pub phase: Phase,
    pub grid_width: usize,
    pub grid_height: usize,
    pub active_player: usize,
    pub players: Vec<Player>,
    pub obstacles: Vec<Position>,
    pub max_score: u32,
}

/// The mathematical value of a [`GameState`].
#[verifier::ext_equal]
pub ghost struct StateModel {
    pub phase: Phase,
    pub grid_width: usize,
    pub grid_height: usize,
    pub active_player: usize,
    pub players: Seq<PlayerModel>,
    pub obstacles: Seq<Position>,
    pub max_score: u32,
}

impl View for GameState {
    type V = StateModel;

    open spec fn view(&self) -> StateModel {
        StateModel {
            phase: self.phase,
            grid_width: self.grid_width,
            grid_height: self.grid_height,
            active_player: self.active_player,
            players: self.players@.map_values(|p: Player| p@),
            obstacles: self.obstacles@,
            max_score: self.max_score,
        }
    }
}

impl StateModel {
    /// The active-player index points at an existing player.
    pub open spec fn active_in_range(self) -> bool {
        self.active_player < self.players.len()
    }

    /// A state the engine can step: the grid is at least two cells wide and
    /// high (so the boundary ring exists), the active player exists, every
    /// player is well formed, and every obstacle lies on the grid.
    pub open spec fn wf(self) -> bool {
        &&& self.grid_width >= 2
        &&& self.grid_height >= 2
        &&& 2 * self.grid_width + 2 * self.grid_height - 4 <= usize::MAX
        &&& self.active_in_range()
        &&& forall|i: int|
            0 <= i < self.players.len() ==> (#[trigger] self.players[i]).wf(
                self.grid_width,
                self.grid_height,
            )
        &&& forall|k: int|
            0 <= k < self.obstacles.len() ==> in_grid(
                #[trigger] self.obstacles[k],
                self.grid_width,
                self.grid_height,
            )
    }

    /// The position of the active player's head.
    pub open spec fn active_head(self) -> Position {
        self.players[self.active_player as int].head().0
    }

    /// Trail entry `j` of player `i` collides with the active player's head:
    /// it occupies the same cell and is not that head itself. The one entry
    /// excluded is the active player's own newest one; its older entries do
    /// count.
    pub open spec fn trail_hit(self, i: int, j: int) -> bool {
        &&& 0 <= i < self.players.len()
        &&& 0 <= j < self.players[i].segments.len()
        &&& self.players[i].segments[j].0 == self.active_head()
        &&& !(i == self.active_player && j == self.players[i].segments.len() - 1)
    }

    /// The active player's head stands on an obstacle or on a trail entry
    /// other than itself.
    pub open spec fn collides(self) -> bool {
        ||| exists|k: int| 0 <= k < self.obstacles.len() && self.obstacles[k] == self.active_head()
        ||| exists|i: int, j: int| self.trail_hit(i, j)
    }

    /// The state after the active player moves: one entry is appended to its
    /// trail, one step from the old head in the head's direction, keeping
    /// that direction.
    pub open spec fn stepped(self) -> StateModel {
        let a = self.active_player as int;
        let p = self.players[a];
        let moved = next_position(p.head().0, p.head().1, self.grid_width, self.grid_height);
        StateModel {
            players: self.players.update(
                a,
                PlayerModel { segments: p.segments.push((moved, p.head().1)), ..p },
            ),
            ..self
        }
    }

    /// The state after a collision is scored: every player but the active one
    /// gains one point.
    pub open spec fn scored(self) -> StateModel {
        StateModel {
            players: Seq::new(
                self.players.len(),
                |i: int|
                    if i == self.active_player {
                        self.players[i]
                    } else {
                        PlayerModel { score: (self.players[i].score + 1) as u32, ..self.players[i] }
                    },
            ),
            ..self
        }
    }

    /// Some player has reached the target score.
    pub open spec fn someone_won(self) -> bool {
        exists|i: int| 0 <= i < self.players.len() && self.players[i].score >= self.max_score
    }

    /// The state at the start of a round: the first two players stand on
    /// their canonical slots with a trail of one entry, the obstacle ring is
    /// regenerated, the first player is active, and play resumes. Only two
    /// canonical slots are defined; any further player keeps its current
    /// trail.
    pub open spec fn round_reset(self) -> StateModel {
        StateModel {
            phase: Phase::Step,
            active_player: 0,
            players: Seq::new(
                self.players.len(),
                |i: int|
                    if i < 2 {
                        PlayerModel { segments: seq![start_slot(i)], ..self.players[i] }
                    } else {
                        self.players[i]
                    },
            ),
            obstacles: wall_ring(self.grid_width, self.grid_height),
            ..self
        }
    }

    /// What one tick does to a well-formed state. In Step, the active player
    /// moves; a collision is scored and ends the round (or the game, once a
    /// score reaches the target), while a free move passes the turn on. In
    /// Score, the round is reset. GameOver absorbs every tick.
    pub open spec fn tick_transition(self) -> StateModel {
        match self.phase {
            Phase::Step => {
                let t = self.stepped();
                if t.collides() {
                    let u = t.scored();
                    StateModel {
                        phase: if u.someone_won() {
                            Phase::GameOver
                        } else {
                            Phase::Score
                        },
                        ..u
                    }
                } else {
                    StateModel {
                        active_player: ((t.active_player + 1) % (t.players.len() as int)) as usize,
                        ..t
                    }
                }
            },
            Phase::Score => self.round_reset(),
            Phase::GameOver => self,
        }
    }
}

impl StateModel {
    /// A free move keeps the state well formed: the new head is on the grid,
    /// every trail stays non-empty, and the turn passes to an existing
    /// player.
    pub proof fn lemma_step_free_wf(self)
        requires
            self.wf(),
            self.phase == Phase::Step,
            !self.stepped().collides(),
        ensures
            self.tick_transition().wf(),
    {
        let a = self.active_player as int;
        let t = self.tick_transition();
        crate::common::lemma_next_in_grid(
            self.players[a].head().0,
            self.players[a].head().1,
            self.grid_width,
            self.grid_height,
        );
        assert forall|i: int| 0 <= i < t.players.len() implies (#[trigger] t.players[i]).wf(
            t.grid_width,
            t.grid_height,
        ) by {
            assert(self.players[i].wf(self.grid_width, self.grid_height));
            if i == a {
                assert forall|j: int| 0 <= j < t.players[i].segments.len() implies in_grid(
                    #[trigger] t.players[i].segments[j].0,
                    t.grid_width,
                    t.grid_height,
                ) by {
                    if j < self.players[i].segments.len() {
                        assert(in_grid(
                            self.players[i].segments[j].0,
                            self.grid_width,
                            self.grid_height,
                        ));
                    }
                }
            }
        }
    }

    /// A scored collision that ends no game leaves a well-formed Score state:
    /// trails are untouched and every raised score still has room to grow.
    pub proof fn lemma_step_collision_wf(self)
        requires
            self.wf(),
            self.phase == Phase::Step,
            self.stepped().collides(),
            !self.stepped().scored().someone_won(),
        ensures
            self.tick_transition().wf(),
    {
        let a = self.active_player as int;
        let t = self.stepped();
        let u = t.scored();
        crate::common::lemma_next_in_grid(
            self.players[a].head().0,
            self.players[a].head().1,
            self.grid_width,
            self.grid_height,
        );
        assert forall|i: int| 0 <= i < u.players.len() implies (#[trigger] u.players[i]).wf(
            u.grid_width,
            u.grid_height,
        ) by {
            assert(self.players[i].wf(self.grid_width, self.grid_height));
            assert(!(u.players[i].score >= u.max_score));
            assert forall|j: int| 0 <= j < u.players[i].segments.len() implies in_grid(
                #[trigger] u.players[i].segments[j].0,
                u.grid_width,
                u.grid_height,
            ) by {
                if i != a || j < self.players[i].segments.len() {
                    assert(in_grid(
                        self.players[i].segments[j].0,
                        self.grid_width,
                        self.grid_height,
                    ));
                }
            }
        }
    }

    /// A round reset keeps a grid that is wider and higher than the canonical
    /// slots well formed.
    pub proof fn lemma_round_reset_wf(self)
        requires
            self.wf(),
            self.phase == Phase::Score,
            self.grid_width > 20,
            self.grid_height > 20,
        ensures
            self.tick_transition().wf(),
    {
        let t = self.tick_transition();
        lemma_wall_ring_in_grid(self.grid_width, self.grid_height);
        assert forall|i: int| 0 <= i < t.players.len() implies (#[trigger] t.players[i]).wf(
            t.grid_width,
            t.grid_height,
        ) by {
            assert(self.players[i].wf(self.grid_width, self.grid_height));
            if i < 2 {
                assert(t.players[i].segments == seq![start_slot(i)]);
                assert(t.players[i].segments[0] == start_slot(i));
            }
        }
    }
}

impl StateModel {
    /// The cell the active player's head moves to on the next step.
    pub open spec fn new_head(self) -> Position {
        next_position(
            self.players[self.active_player as int].head().0,
            self.players[self.active_player as int].head().1,
            self.grid_width,
            self.grid_height,
        )
    }

    /// The state with the active player's head turned to face `direction`.
    pub open spec fn with_active_heading(self, direction: Direction) -> StateModel {
        StateModel {
            players: self.players.update(
                self.active_player as int,
                self.players[self.active_player as int].with_heading(direction),
            ),
            ..self
        }
    }

    /// Trail growth: a Step tick never shrinks or empties a trail, and grows
    /// the active player's trail by exactly one entry.
    pub proof fn lemma_trails_grow(self)
        requires
            self.wf(),
            self.phase == Phase::Step,
        ensures
            self.tick_transition().players.len() == self.players.len(),
            forall|i: int|
                0 <= i < self.players.len() ==> (#[trigger] self.tick_transition().players[i]).segments.len()
                    >= self.players[i].segments.len(),
            forall|i: int|
                0 <= i < self.players.len() ==> (#[trigger] self.tick_transition().players[i]).segments.len()
                    > 0,
            self.tick_transition().players[self.active_player as int].segments.len()
                == self.players[self.active_player as int].segments.len() + 1,
    {
        assert forall|i: int| 0 <= i < self.players.len() implies (
        #[trigger] self.tick_transition().players[i]).segments.len()
            >= self.players[i].segments.len() && self.tick_transition().players[i].segments.len()
            > 0 by {
            assert(self.players[i].wf(self.grid_width, self.grid_height));
        }
    }

    /// Trail non-emptiness: no tick of any phase empties a trail — a step
    /// appends, a reset leaves exactly one entry, and GameOver changes
    /// nothing.
    pub proof fn lemma_no_tick_empties_trails(self)
        requires
            self.wf(),
        ensures
            self.tick_transition().players.len() == self.players.len(),
            forall|i: int|
                0 <= i < self.players.len() ==> (#[trigger] self.tick_transition().players[i]).segments.len()
                    > 0,
    {
        assert forall|i: int| 0 <= i < self.players.len() implies (
        #[trigger] self.tick_transition().players[i]).segments.len() > 0 by {
            assert(self.players[i].wf(self.grid_width, self.grid_height));
        }
    }

    /// Collision self-exclusion: when the cell the head moves to is free —
    /// distinct from every obstacle and from every trail entry recorded
    /// before the move — the step is no collision, even though the new head
    /// coincides with the trail entry just appended for it.
    pub proof fn lemma_self_collision_excluded(self)
        requires
            self.wf(),
            forall|k: int|
                0 <= k < self.obstacles.len() ==> #[trigger] self.obstacles[k] != self.new_head(),
            forall|i: int, j: int|
                0 <= i < self.players.len() && 0 <= j < self.players[i].segments.len() ==> (
                #[trigger] self.players[i].segments[j]).0 != self.new_head(),
        ensures
            !self.stepped().collides(),
    {
        let a = self.active_player as int;
        let t = self.stepped();
        assert(t.active_head() == self.new_head());
        assert forall|i: int, j: int| !t.trail_hit(i, j) by {
            if 0 <= i < t.players.len() && 0 <= j < t.players[i].segments.len() {
                if i == a && j == t.players[i].segments.len() - 1 {
                    assert(!t.trail_hit(i, j));
                } else {
                    assert(t.players[i].segments[j] == self.players[i].segments[j]);
                }
            }
        }
    }

    /// Score monotonicity: a collision raises every other player's score by
    /// exactly one and leaves the active player's score unchanged.
    pub proof fn lemma_collision_scores(self)
        requires
            self.wf(),
            self.phase == Phase::Step,
            self.stepped().collides(),
        ensures
            self.tick_transition().players.len() == self.players.len(),
            forall|i: int|
                0 <= i < self.players.len() && i != self.active_player ==> (
                #[trigger] self.tick_transition().players[i]).score == self.players[i].score + 1,
            self.tick_transition().players[self.active_player as int].score
                == self.players[self.active_player as int].score,
    {
    }

    /// Termination: a Step tick ends the game exactly when the collision it
    /// scores leaves some player at or past the target score.
    pub proof fn lemma_game_over_iff(self)
        requires
            self.wf(),
            self.phase == Phase::Step,
        ensures
            self.tick_transition().phase == Phase::GameOver <==> (self.stepped().collides()
                && exists|i: int|
                0 <= i < self.tick_transition().players.len() && (
                #[trigger] self.tick_transition().players[i]).score >= self.max_score),
    {
        let t = self.stepped();
        if t.collides() {
            let u = t.scored();
            let tr = self.tick_transition();
            assert(tr.players == u.players);
            if u.someone_won() {
                let w = choose|i: int|
                    0 <= i < u.players.len() && u.players[i].score >= u.max_score;
                assert(tr.players[w].score >= self.max_score);
            }
            if exists|i: int|
                0 <= i < tr.players.len() && (#[trigger] tr.players[i]).score >= self.max_score {
                let w = choose|i: int|
                    0 <= i < tr.players.len() && (#[trigger] tr.players[i]).score
                        >= self.max_score;
                assert(u.players[w].score >= u.max_score);
                assert(u.someone_won());
            }
        }
    }

    /// GameOver is terminal: a tick on a finished game changes nothing.
    pub proof fn lemma_game_over_absorbs(self)
        requires
            self.phase == Phase::GameOver,
        ensures
            self.tick_transition() == self,
    {
    }

    /// A tick never changes the grid's dimensions, and a state whose
    /// obstacles are the generated boundary ring keeps that ring: Step moves
    /// touch no obstacle and a round reset regenerates the same ring. Every
    /// state a fresh game reaches through ticks therefore keeps the boundary.
    pub proof fn lemma_tick_keeps_boundary(self)
        requires
            self.obstacles == wall_ring(self.grid_width, self.grid_height),
        ensures
            self.tick_transition().grid_width == self.grid_width,
            self.tick_transition().grid_height == self.grid_height,
            self.tick_transition().obstacles == wall_ring(self.grid_width, self.grid_height),
    {
    }

    /// Reset idempotence: in a game of at most two players, the tick after a
    /// scored collision puts every player back on its canonical slot with a
    /// fresh one-entry trail, keeps scores and colors, hands the turn to the
    /// first player, and regenerates the full boundary ring of the grid.
    pub proof fn lemma_round_reset_canonical(self)
        requires
            self.wf(),
            self.phase == Phase::Score,
            self.players.len() <= 2,
        ensures
            self.tick_transition().phase == Phase::Step,
            self.tick_transition().active_player == 0,
            self.tick_transition().players.len() == self.players.len(),
            forall|i: int|
                0 <= i < self.players.len() ==> (#[trigger] self.tick_transition().players[i]).segments
                    == seq![start_slot(i)],
            forall|i: int|
                0 <= i < self.players.len() ==> (#[trigger] self.tick_transition().players[i]).score
                    == self.players[i].score,
            forall|i: int|
                0 <= i < self.players.len() ==> (#[trigger] self.tick_transition().players[i]).color
                    == self.players[i].color,
            self.tick_transition().obstacles == wall_ring(self.grid_width, self.grid_height),
            self.tick_transition().obstacles.len() == 2 * self.grid_width + 2 * self.grid_height
                - 4,
    {
    }
}

/// Copy a trail entry for entry.
fn copy_segments(segments: &Vec<(Position, Direction)>) -> (copy: Vec<(Position, Direction)>)
    ensures
        copy@ == segments@,
{
    let mut copy: Vec<(Position, Direction)> = Vec::new();
    let mut i: usize = 0;
    while i < segments.len()
        invariant
            i <= segments@.len(),
            copy@ == segments@.take(i as int),
        decreases segments@.len() - i,
    {
        copy.push(segments[i]);
        proof {
            assert(copy@ =~= segments@.take(i + 1 as int));
        }
        i = i + 1;
    }
    proof {
        assert(copy@ =~= segments@);
    }
    copy
}

impl Clone for Player {
    /// An exact copy: the clone has the same value as the original.
    fn clone(&self) -> (copy: Player)
        ensures
            copy@ == self@,
    {
        Player { color: self.color, score: self.score, segments: copy_segments(&self.segments) }
    }
}

impl Clone for GameState {
    /// An exact copy, deep through players and obstacles: the clone has the
    /// same value as the original. The bot simulates its moves on such
    /// copies, never on the live engine.
    fn clone(&self) -> (copy: GameState)
        ensures
            copy@ == self@,
    {
        let mut players: Vec<Player> = Vec::new();
        let mut i: usize = 0;
        while i < self.players.len()
            invariant
                i <= self.players@.len(),
                players@.len() == i,
                forall|t: int| 0 <= t < i ==> #[trigger] players@[t]@ == self.players@[t]@,
            decreases self.players@.len() - i,
        {
            players.push(self.players[i].clone());
            i = i + 1;
        }
        let mut obstacles: Vec<Position> = Vec::new();
        let mut k: usize = 0;
        while k < self.obstacles.len()
            invariant
                k <= self.obstacles@.len(),
                obstacles@ == self.obstacles@.take(k as int),
            decreases self.obstacles@.len() - k,
        {
            obstacles.push(self.obstacles[k]);
            proof {
                assert(obstacles@ =~= self.obstacles@.take(k + 1 as int));
            }
            k = k + 1;
        }
        let copy = GameState {
            phase: self.phase,
            grid_width: self.grid_width,
            grid_height: self.grid_height,
            active_player: self.active_player,
            players,
            obstacles,
            max_score: self.max_score,
        };
        proof {
            assert(obstacles@ =~= self.obstacles@);
            assert(copy@.players =~= self@.players);
            assert(copy@ =~= self@);
        }
        copy
    }
}

/// Every cell of the boundary ring lies on the grid it surrounds.
pub proof fn lemma_wall_ring_in_grid(width: usize, height: usize)
    requires
        width >= 2,
        height >= 2,
    ensures
        forall|k: int|
            0 <= k < wall_ring(width, height).len() ==> in_grid(
                #[trigger] wall_ring(width, height)[k],
                width,
                height,
            ),
{
    assert forall|k: int| 0 <= k < wall_ring(width, height).len() implies in_grid(
        #[trigger] wall_ring(width, height)[k],
        width,
        height,
    ) by {
        let s1 = Seq::new((width - 2) as nat, |i: int| Position { x: (width - 2 - i) as usize, y: 0 });
        let s2 = Seq::new(height as nat, |i: int| Position { x: 0, y: i as usize });
        let s3 = Seq::new(
            (width - 2) as nat,
            |i: int| Position { x: (i + 1) as usize, y: (height - 1) as usize },
        );
        let s4 = Seq::new(
            height as nat,
            |i: int| Position { x: (width - 1) as usize, y: (height - 1 - i) as usize },
        );
        assert(wall_ring(width, height) == s1 + s2 + s3 + s4);
        if k < s1.len() {
            assert((s1 + s2 + s3 + s4)[k] == s1[k]);
        } else if k < s1.len() + s2.len() {
            assert((s1 + s2 + s3 + s4)[k] == s2[k - s1.len()]);
        } else if k < s1.len() + s2.len() + s3.len() {
            assert((s1 + s2 + s3 + s4)[k] == s3[k - s1.len() - s2.len()]);
        } else {
            assert((s1 + s2 + s3 + s4)[k] == s4[k - s1.len() - s2.len() - s3.len()]);
        }
    }
}

/// The canonical round-start slot of player `i`: the first player starts at
/// (10, 10) heading South, the second at (20, 20) heading North.
pub open spec fn start_slot(i: int) -> (Position, Direction) {
    if i == 0 {
        (Position { x: 10, y: 10 }, Direction::South)
    } else {
        (Position { x: 20, y: 20 }, Direction::North)
    }
}

/// The boundary ring of a `width` by `height` grid as [`generate_wall`]
/// produces it: along the top edge from just left of the top-right corner to
/// x = 1, down the left edge, along the bottom edge, and up the right edge —
/// a closed counter-clockwise cycle of 2 * width + 2 * height - 4 distinct
/// cells (for width and height at least 2).
pub open spec fn wall_ring(width: usize, height: usize) -> Seq<Position> {
    Seq::new((width - 2) as nat, |i: int| Position { x: (width - 2 - i) as usize, y: 0 })
        + Seq::new(height as nat, |i: int| Position { x: 0, y: i as usize })
        + Seq::new(
        (width - 2) as nat,
        |i: int| Position { x: (i + 1) as usize, y: (height - 1) as usize },
    ) + Seq::new(height as nat, |i: int| Position { x: (width - 1) as usize, y: (height - 1 - i) as usize })
}

/// Generate the boundary wall of the grid: a closed ring of obstacles along
/// its four edges, starting just left of the top-right corner and running
/// counter-clockwise.
pub fn generate_wall(width: usize, height: usize) -> (walls: Vec<Position>)
    requires
        width >= 2,
        height >= 2,
        2 * width + 2 * height - 4 <= usize::MAX,
    ensures
        walls@ == wall_ring(width, height),
        walls@.len() == 2 * width + 2 * height - 4,
        forall|k: int| 0 <= k < walls@.len() ==> in_grid(#[trigger] walls@[k], width, height),
{
    let mut walls: Vec<Position> = Vec::new();

    let mut i: usize = 1;
    while i < width - 1
        invariant
            width >= 2,
            1 <= i <= width - 1,
            walls@.len() == i - 1,
            forall|k: int|
                0 <= k < walls@.len() ==> #[trigger] walls@[k] == (Position { x: (width - 2 - k) as usize, y: 0 }),
        decreases width - 1 - i,
    {
        walls.push(Position { x: width - 1 - i, y: 0 });
        i = i + 1;
    }

    let mut j: usize = 0;
    while j < height
        invariant
            width >= 2,
            0 <= j <= height,
            walls@.len() == (width - 2) + j,
            forall|k: int|
                0 <= k < width - 2 ==> #[trigger] walls@[k] == (Position { x: (width - 2 - k) as usize, y: 0 }),
            forall|k: int|
                width - 2 <= k < walls@.len() ==> #[trigger] walls@[k] == (Position { x: 0, y: (k - (width - 2)) as usize }),
        decreases height - j,
    {
        walls.push(Position { x: 0, y: j });
        j = j + 1;
    }

    let base2: usize = width - 2 + height;
    let mut i: usize = 1;
    while i < width - 1
        invariant
            width >= 2,
            height >= 2,
            base2 == width - 2 + height,
            1 <= i <= width - 1,
            walls@.len() == base2 + i - 1,
            forall|k: int|
                0 <= k < width - 2 ==> #[trigger] walls@[k] == (Position { x: (width - 2 - k) as usize, y: 0 }),
            forall|k: int|
                width - 2 <= k < base2 ==> #[trigger] walls@[k] == (Position { x: 0, y: (k - (width - 2)) as usize }),
            forall|k: int|
                base2 <= k < walls@.len() ==> #[trigger] walls@[k] == (Position { x: (k - base2 + 1) as usize, y: (height - 1) as usize }),
        decreases width - 1 - i,
    {
        walls.push(Position { x: i, y: height - 1 });
        i = i + 1;
    }

    let base3: usize = 2 * (width - 2) + height;
    let mut j: usize = 0;
    while j < height
        invariant
            width >= 2,
            height >= 2,
            base2 == width - 2 + height,
            base3 == 2 * (width - 2) + height,
            0 <= j <= height,
            walls@.len() == base3 + j,
            forall|k: int|
                0 <= k < width - 2 ==> #[trigger] walls@[k] == (Position { x: (width - 2 - k) as usize, y: 0 }),
            forall|k: int|
                width - 2 <= k < base2 ==> #[trigger] walls@[k] == (Position { x: 0, y: (k - (width - 2)) as usize }),
            forall|k: int|
                base2 <= k < base3 ==> #[trigger] walls@[k] == (Position { x: (k - base2 + 1) as usize, y: (height - 1) as usize }),
            forall|k: int|
                base3 <= k < walls@.len() ==> #[trigger] walls@[k] == (Position { x: (width - 1) as usize, y: (height - 1 - (k - base3)) as usize }),
        decreases height - j,
    {
        walls.push(Position { x: width - 1, y: height - 1 - j });
        j = j + 1;
    }

    proof {
        assert(walls@ =~= wall_ring(width, height));
    }
    walls
}

impl GameState {
    /// A fresh game on the 32 by 28 grid, with the target score to reach.
    /// Exactly two canonical starting slots are defined, so two players are
    /// created whatever count is asked for: the first red at (10, 10) heading
    /// South, the second blue at (20, 20) heading North.
    pub fn new(_num_players: usize, max_score: u32) -> (game: GameState)
        ensures
            game@.phase == Phase::Step,
            game@.active_player == 0,
            game@.grid_width == 32,
            game@.grid_height == 28,
            game@.max_score == max_score,
            game@.players.len() == 2,
            game@.players[0] == (PlayerModel {
                color: Color { r: 1000, g: 0, b: 0 },
                score: 0,
                segments: seq![start_slot(0)],
            }),
            game@.players[1] == (PlayerModel {
                color: Color { r: 0, g: 0, b: 1000 },
                score: 0,
                segments: seq![start_slot(1)],
            }),
            game@.obstacles == wall_ring(32, 28),
            game@.wf(),
    {
        let width: usize = 32;
        let height: usize = 28;

        let mut players: Vec<Player> = Vec::new();
        players.push(Player::new(Color::red(), Position { x: 10, y: 10 }, Direction::South));
        players.push(Player::new(Color::blue(), Position { x: 20, y: 20 }, Direction::North));

        let game = GameState {
            phase: Phase::Step,
            active_player: 0,
            players,
            max_score,
            grid_width: width,
            grid_height: height,
            obstacles: generate_wall(width, height),
        };
        proof {
            assert(game@.players =~= players@.map_values(|p: Player| p@));
            assert(game@.players[0].segments =~= seq![start_slot(0)]);
            assert(game@.players[1].segments =~= seq![start_slot(1)]);
            assert(game@.players[0] =~= PlayerModel {
                color: Color { r: 1000, g: 0, b: 0 },
                score: 0,
                segments: seq![start_slot(0)],
            });
            assert(game@.players[1] =~= PlayerModel {
                color: Color { r: 0, g: 0, b: 1000 },
                score: 0,
                segments: seq![start_slot(1)],
            });
        }
        game
    }

    /// The model's player sequence is the player vector, element for
    /// element.
    pub proof fn lemma_players_model(&self)
        ensures
            self@.players.len() == self.players@.len(),
            forall|t: int|
                0 <= t < self.players@.len() ==> #[trigger] self@.players[t] == self.players@[t]@,
    {
    }

    /// Decide whether this state is well formed, as [`StateModel::wf`]
    /// defines it. `tick` refuses a state that is not, and every state `tick`
    /// accepts and produces outside GameOver satisfies it.
    pub fn is_well_formed(&self) -> (ok: bool)
        ensures
            ok == self@.wf(),
    {
        if self.grid_width < 2 || self.grid_height < 2 {
            return false;
        }
        if (self.grid_width as u128) * 2 + (self.grid_height as u128) * 2 - 4 > usize::MAX as u128 {
            return false;
        }
        if self.active_player >= self.players.len() {
            return false;
        }
        let mut i: usize = 0;
        while i < self.players.len()
            invariant
                i <= self.players@.len(),
                forall|t: int|
                    0 <= t < i ==> (#[trigger] self@.players[t]).wf(
                        self.grid_width,
                        self.grid_height,
                    ),
            decreases self.players@.len() - i,
        {
            proof {
                assert(self@.players[i as int] == self.players@[i as int]@);
            }
            let n = self.players[i].segments.len();
            if n == 0 {
                return false;
            }
            if self.players[i].score == u32::MAX {
                return false;
            }
            let mut j: usize = 0;
            while j < n
                invariant
                    j <= n,
                    i < self.players@.len(),
                    n == self.players@[i as int].segments@.len(),
                    forall|t: int|
                        0 <= t < j ==> in_grid(
                            #[trigger] self.players@[i as int].segments@[t].0,
                            self.grid_width,
                            self.grid_height,
                        ),
                decreases n - j,
            {
                let p = self.players[i].segments[j].0;
                if p.x >= self.grid_width || p.y >= self.grid_height {
                    proof {
                        assert(self@.players[i as int] == self.players@[i as int]@);
                        assert(!in_grid(self@.players[i as int].segments[j as int].0, self.grid_width, self.grid_height));
                    }
                    return false;
                }
                j = j + 1;
            }
            i = i + 1;
        }
        let mut k: usize = 0;
        while k < self.obstacles.len()
            invariant
                k <= self.obstacles@.len(),
                forall|t: int|
                    0 <= t < k ==> in_grid(
                        #[trigger] self.obstacles@[t],
                        self.grid_width,
                        self.grid_height,
                    ),
            decreases self.obstacles@.len() - k,
        {
            let p = self.obstacles[k];
            if p.x >= self.grid_width || p.y >= self.grid_height {
                proof {
                    assert(!in_grid(self@.obstacles[k as int], self.grid_width, self.grid_height));
                }
                return false;
            }
            k = k + 1;
        }
        true
    }

    /// Advance the game one step: append a new head to the active player's
    /// trail, one cell onward in the direction the head faces.
    pub fn step(&mut self)
        requires
            old(self)@.active_in_range(),
            old(self)@.players[old(self)@.active_player as int].segments.len() > 0,
            in_grid(
                old(self)@.players[old(self)@.active_player as int].head().0,
                old(self).grid_width,
                old(self).grid_height,
            ),
            old(self).grid_width >= 1,
            old(self).grid_height >= 1,
        ensures
            final(self)@ == old(self)@.stepped(),
    {
        let idx = self.active_player;
        let n = self.players[idx].segments.len();
        let (position, direction) = self.players[idx].segments[n - 1];
        let moved = position.next(&direction, self.grid_width, self.grid_height);
        proof {
            assert(old(self)@.players[idx as int] == old(self).players@[idx as int]@);
        }
        let active = &mut self.players[idx];
        active.segments.push((moved, direction));
        proof {
            assert(final(self)@.players =~= old(self)@.stepped().players);
            assert(final(self)@ =~= old(self)@.stepped());
        }
    }

    /// Whether the active player's head has collided with an obstacle or a
    /// trail, its own newest entry excepted.
    pub fn has_collision(&self) -> (hit: bool)
        requires
            self@.active_in_range(),
            self@.players[self@.active_player as int].segments.len() > 0,
        ensures
            hit == self@.collides(),
    {
        proof {
            assert(self@.players[self.active_player as int]
                == self.players@[self.active_player as int]@);
        }
        let n_active = self.players[self.active_player].segments.len();
        let (position, _) = self.players[self.active_player].segments[n_active - 1];

        let mut k: usize = 0;
        while k < self.obstacles.len()
            invariant
                k <= self.obstacles@.len(),
                position == self@.active_head(),
                forall|t: int| 0 <= t < k ==> self@.obstacles[t] != position,
            decreases self.obstacles@.len() - k,
        {
            if self.obstacles[k] == position {
                proof {
                    assert(self@.obstacles[k as int] == self@.active_head());
                }
                return true;
            }
            k = k + 1;
        }

        let mut i: usize = 0;
        while i < self.players.len()
            invariant
                i <= self.players@.len(),
                self@.active_in_range(),
                position == self@.active_head(),
                forall|t: int, j: int| t < i ==> !self@.trail_hit(t, j),
            decreases self.players@.len() - i,
        {
            proof {
                assert(self@.players[i as int] == self.players@[i as int]@);
            }
            let n = self.players[i].segments.len();
            let mut j: usize = 0;
            while j < n
                invariant
                    j <= n,
                    i < self.players@.len(),
                    self@.active_in_range(),
                    position == self@.active_head(),
                    n == self@.players[i as int].segments.len(),
                    forall|t: int, u: int| t < i ==> !self@.trail_hit(t, u),
                    forall|u: int| 0 <= u < j ==> !self@.trail_hit(i as int, u),
                decreases n - j,
            {
                proof {
                    assert(self@.players[i as int] == self.players@[i as int]@);
                }
                if self.players[i].segments[j].0 == position {
                    if !(i == self.active_player && j == n - 1) {
                        proof {
                            assert(self@.trail_hit(i as int, j as int));
                        }
                        return true;
                    }
                }
                j = j + 1;
            }
            i = i + 1;
        }
        false
    }

    /// Award every player but the active one a point for the collision.
    fn score(&mut self)
        requires
            old(self)@.active_in_range(),
            forall|i: int|
                0 <= i < old(self)@.players.len() ==> (#[trigger] old(self)@.players[i]).score
                    < u32::MAX,
        ensures
            final(self)@ == old(self)@.scored(),
    {
        let mut i: usize = 0;
        while i < self.players.len()
            invariant
                i <= self.players@.len(),
                self@.players.len() == old(self)@.players.len(),
                self@.phase == old(self)@.phase,
                self@.grid_width == old(self)@.grid_width,
                self@.grid_height == old(self)@.grid_height,
                self@.active_player == old(self)@.active_player,
                self@.obstacles == old(self)@.obstacles,
                self@.max_score == old(self)@.max_score,
                forall|t: int| 0 <= t < self@.players.len() ==>
                    (#[trigger] old(self)@.players[t]).score < u32::MAX,
                forall|t: int| 0 <= t < i ==>
                    #[trigger] self@.players[t] == old(self)@.scored().players[t],
                forall|t: int| i <= t < self@.players.len() ==>
                    #[trigger] self@.players[t] == old(self)@.players[t],
            decreases self.players@.len() - i,
        {
            let ghost pre = self@;
            proof {
                self.lemma_players_model();
                assert(self@.players[i as int] == self.players@[i as int]@);
                assert(old(self)@.players[i as int].score < u32::MAX);
            }
            if i != self.active_player {
                let target = &mut self.players[i];
                target.score = target.score + 1;
            }
            proof {
                self.lemma_players_model();
                assert(self@.players[i as int] == self.players@[i as int]@);
                assert(self@.players[i as int] =~= old(self)@.scored().players[i as int]);
                assert forall|t: int| 0 <= t < self@.players.len() && t != i implies #[trigger] self@.players[t]
                    == pre.players[t] by {
                    assert(self@.players[t] == self.players@[t]@);
                    assert(pre.players[t] == self.players@[t]@);
                }
            }
            i = i + 1;
        }
        proof {
            assert(final(self)@.players =~= old(self)@.scored().players);
            assert(final(self)@ =~= old(self)@.scored());
        }
    }

    /// Put the first two players back on their canonical starting slots with
    /// fresh one-entry trails and give the first player the turn. Players
    /// past the second have no defined slot and keep their trails.
    fn reset_players(&mut self)
        ensures
            final(self)@ == (StateModel {
                active_player: 0,
                players: old(self)@.round_reset().players,
                ..old(self)@
            }),
    {
        let mut i: usize = 0;
        while i < self.players.len()
            invariant
                i <= self.players@.len(),
                self@.players.len() == old(self)@.players.len(),
                self@.phase == old(self)@.phase,
                self@.grid_width == old(self)@.grid_width,
                self@.grid_height == old(self)@.grid_height,
                self@.active_player == old(self)@.active_player,
                self@.obstacles == old(self)@.obstacles,
                self@.max_score == old(self)@.max_score,
                forall|t: int| 0 <= t < i ==>
                    #[trigger] self@.players[t] == old(self)@.round_reset().players[t],
                forall|t: int| i <= t < self@.players.len() ==>
                    #[trigger] self@.players[t] == old(self)@.players[t],
            decreases self.players@.len() - i,
        {
            let ghost pre = self@;
            proof {
                self.lemma_players_model();
                assert(self@.players[i as int] == self.players@[i as int]@);
            }
            if i == 0 {
                let target = &mut self.players[i];
                let mut fresh: Vec<(Position, Direction)> = Vec::new();
                fresh.push((Position { x: 10, y: 10 }, Direction::South));
                target.segments = fresh;
            } else if i == 1 {
                let target = &mut self.players[i];
                let mut fresh: Vec<(Position, Direction)> = Vec::new();
                fresh.push((Position { x: 20, y: 20 }, Direction::North));
                target.segments = fresh;
            }
            proof {
                self.lemma_players_model();
                assert(self@.players[i as int] == self.players@[i as int]@);
                if i < 2 {
                    assert(self@.players[i as int].segments =~= seq![start_slot(i as int)]);
                }
                assert(self@.players[i as int] =~= old(self)@.round_reset().players[i as int]);
                assert forall|t: int| 0 <= t < self@.players.len() && t != i implies #[trigger] self@.players[t]
                    == pre.players[t] by {
                    assert(self@.players[t] == self.players@[t]@);
                    assert(pre.players[t] == self.players@[t]@);
                }
            }
            i = i + 1;
        }
        self.active_player = 0;
        proof {
            assert(final(self)@.players =~= old(self)@.round_reset().players);
            assert(final(self)@ =~= StateModel {
                active_player: 0,
                players: old(self)@.round_reset().players,
                ..old(self)@
            });
        }
    }

    /// Whether some player has reached the target score.
    fn is_game_over(&self) -> (over: bool)
        ensures
            over == self@.someone_won(),
    {
        let mut i: usize = 0;
        while i < self.players.len()
            invariant
                i <= self.players@.len(),
                forall|t: int| 0 <= t < i ==> (#[trigger] self@.players[t]).score < self@.max_score,
            decreases self.players@.len() - i,
        {
            proof {
                assert(self@.players[i as int] == self.players@[i as int]@);
            }
            if self.players[i].score >= self.max_score {
                return true;
            }
            i = i + 1;
        }
        false
    }

    /// Advance the game by one tick. In Step, the active player moves one
    /// cell; if its new head hits an obstacle or a trail (its own newest
    /// entry excepted) every other player scores a point and the phase turns
    /// to Score, or to GameOver once a score reaches the target; on a free
    /// move the turn passes to the next player. In Score, the round is reset:
    /// the first two players return to their canonical slots, the obstacle
    /// ring is regenerated, and play resumes. In GameOver nothing happens.
    ///
    /// A call without an active player is refused with `InvalidArgument`; a
    /// state that breaks the engine invariant is refused with `Internal`. A
    /// refused tick leaves the state untouched.
    pub fn tick(&mut self) -> (r: Result<(), EngineError>)
        ensures
            r == Err::<(), EngineError>(EngineError::InvalidArgument) <==> !old(
                self,
            )@.active_in_range(),
            old(self)@.active_in_range() && old(self)@.phase == Phase::GameOver ==> r == Ok::<
                (),
                EngineError,
            >(()),
            old(self)@.active_in_range() && old(self)@.phase != Phase::GameOver ==> (r == Err::<
                (),
                EngineError,
            >(EngineError::Internal) <==> !old(self)@.wf()),
            r == Ok::<(), EngineError>(()) ==> final(self)@ == old(self)@.tick_transition(),
            r is Err ==> final(self)@ == old(self)@,
            r == Ok::<(), EngineError>(()) && old(self)@.phase == Phase::Step && old(self)@.wf()
                ==> (final(self)@.wf() || final(self)@.phase == Phase::GameOver),
            r == Ok::<(), EngineError>(()) && old(self)@.phase == Phase::Score && old(self)@.wf()
                && old(self).grid_width > 20 && old(self).grid_height > 20 ==> final(self)@.wf(),
    {
        proof {
            self.lemma_players_model();
        }
        if self.active_player >= self.players.len() {
            return Err(EngineError::InvalidArgument);
        }
        if let Phase::GameOver = self.phase {
            return Ok(());
        }
        if !self.is_well_formed() {
            return Err(EngineError::Internal);
        }
        match self.phase {
            Phase::Step => {
                proof {
                    let a = old(self)@.active_player as int;
                    assert(old(self)@.players[a].wf(old(self).grid_width, old(self).grid_height));
                    assert(in_grid(
                        old(self)@.players[a].segments[old(self)@.players[a].segments.len() - 1].0,
                        old(self).grid_width,
                        old(self).grid_height,
                    ));
                }
                self.step();
                let ghost t = old(self)@.stepped();
                proof {
                    assert(t.players[t.active_player as int].segments.len() > 0);
                }
                if self.has_collision() {
                    proof {
                        assert forall|i: int| 0 <= i < t.players.len() implies (
                        #[trigger] t.players[i]).score < u32::MAX by {
                            assert(old(self)@.players[i].wf(
                                old(self).grid_width,
                                old(self).grid_height,
                            ));
                        }
                    }
                    self.score();
                    if self.is_game_over() {
                        self.phase = Phase::GameOver;
                        proof {
                            assert(final(self)@ =~= old(self)@.tick_transition());
                        }
                    } else {
                        self.phase = Phase::Score;
                        proof {
                            assert(final(self)@ =~= old(self)@.tick_transition());
                            old(self)@.lemma_step_collision_wf();
                        }
                    }
                } else {
                    self.set_next_player();
                    proof {
                        assert(final(self)@ =~= old(self)@.tick_transition());
                        old(self)@.lemma_step_free_wf();
                    }
                }
                Ok(())
            },
            Phase::Score => {
                self.reset_players();
                self.obstacles = generate_wall(self.grid_width, self.grid_height);
                self.phase = Phase::Step;
                proof {
                    assert(final(self)@ =~= old(self)@.tick_transition());
                    if old(self).grid_width > 20 && old(self).grid_height > 20 {
                        old(self)@.lemma_round_reset_wf();
                    }
                }
                Ok(())
            },
            Phase::GameOver => Ok(()),
        }
    }

    /// Pass the turn to the next player, round robin.
    fn set_next_player(&mut self)
        requires
            old(self)@.active_in_range(),
        ensures
            final(self)@ == (StateModel {
                active_player: ((old(self)@.active_player + 1) % (
                old(self)@.players.len() as int)) as usize,
                ..old(self)@
            }),
    {
        let n = self.players.len();
        self.active_player = (self.active_player + 1) % n;
    }
}

} // verus!
