//! The "drunk lamppost" bot: it picks a direction for the active player by
//! simulating one step ahead on a throwaway copy of the engine per candidate
//! direction and avoiding those that collide, leaning towards its current
//! heading. Not really how a drunk behaves around a lamppost, but a little
//! less crashy than a completely random walk.

use vstd::prelude::*;

use crate::common::{direction_in_order, direction_order, Direction};
use crate::game::{GameState, StateModel};

verus! {

/// Whether one simulated step in direction `d` — taken on a copy of the
/// state whose active player's head is first turned to `d` — ends in a
/// collision.
pub open spec fn sim_collides(s: StateModel, d: Direction) -> bool {
    s.with_active_heading(d).stepped().collides()
}

/// The safe directions among the first `n` of the canonical order: those
/// whose one-step simulation finds no collision, in that order.
pub open spec fn safe_prefix(s: StateModel, n: int) -> Seq<Direction>
    decreases n,
{
    if n <= 0 {
        Seq::empty()
    } else if !sim_collides(s, direction_order(n - 1)) {
        safe_prefix(s, n - 1) + seq![direction_order(n - 1)]
    } else {
        safe_prefix(s, n - 1)
    }
}

/// The safe directions: those of the four whose one-step simulation finds no
/// collision, in canonical order.
pub open spec fn safe_directions(s: StateModel) -> Seq<Direction> {
    safe_prefix(s, 4)
}

/// Bot safety: everything [`safe_prefix`] collects is collision-free in the
/// one-step simulation.
pub proof fn lemma_safe_prefix_safe(s: StateModel, n: int)
    ensures
        forall|t: int|
            0 <= t < safe_prefix(s, n).len() ==> !sim_collides(s, #[trigger] safe_prefix(s, n)[t]),
    decreases n,
{
    if n > 0 {
        lemma_safe_prefix_safe(s, n - 1);
        assert forall|t: int| 0 <= t < safe_prefix(s, n).len() implies !sim_collides(
            s,
            #[trigger] safe_prefix(s, n)[t],
        ) by {
            if t < safe_prefix(s, n - 1).len() {
                assert(safe_prefix(s, n)[t] == safe_prefix(s, n - 1)[t]);
            }
        }
    }
}

/// The direction the bot chooses, given the two random draws: the current
/// heading when nothing is safe or when the heading is safe and `keep_roll`
/// says to keep it; otherwise the safe direction at `pick` modulo their
/// count.
pub open spec fn bot_choice(s: StateModel, keep_roll: bool, pick: int) -> Direction {
    let current = s.players[s.active_player as int].head().1;
    let safe = safe_directions(s);
    if safe.len() == 0 {
        current
    } else if safe.contains(current) && keep_roll {
        current
    } else {
        safe[pick % safe.len() as int]
    }
}

/// Whether the vector holds the direction.
fn contains_direction(directions: &Vec<Direction>, direction: Direction) -> (found: bool)
    ensures
        found == directions@.contains(direction),
{
    let mut i: usize = 0;
    while i < directions.len()
        invariant
            i <= directions@.len(),
            forall|t: int| 0 <= t < i ==> directions@[t] != direction,
        decreases directions@.len() - i,
    {
        if directions[i] == direction {
            return true;
        }
        i = i + 1;
    }
    proof {
        if directions@.contains(direction) {
            let w = choose|t: int| 0 <= t < directions@.len() && directions@[t] == direction;
            assert(false);
        }
    }
    false
}

/// Choose the active player's next direction. Each of the four directions is
/// tried in canonical order on a full copy of the engine — turn the head,
/// step once, test for a collision — and the collision-free ones are
/// collected; the live state is never touched. If nothing is safe the bot
/// keeps its current heading and accepts the crash. If the current heading is
/// safe, `keep_roll` decides whether to keep it; a driver draws it true nine
/// times out of ten, so the bot mostly holds its course. Otherwise the bot
/// takes the safe direction at `pick` modulo their count. The caller supplies
/// the two random draws; the choice is a function of the state and the draws,
/// and it is never an unsafe direction while a safe one exists.
pub fn drunk_lamppost_next(game_state: &GameState, keep_roll: bool, pick: usize) -> (direction:
    Direction)
    requires
        game_state@.wf(),
    ensures
        direction == bot_choice(game_state@, keep_roll, pick as int),
        safe_directions(game_state@).len() > 0 ==> !sim_collides(game_state@, direction),
{
    let idx = game_state.active_player;
    proof {
        game_state.lemma_players_model();
        assert(game_state@.players[idx as int] == game_state.players@[idx as int]@);
        assert(game_state@.players[idx as int].wf(game_state.grid_width, game_state.grid_height));
    }
    let n = game_state.players[idx].segments.len();
    let current_direction = game_state.players[idx].segments[n - 1].1;
    proof {
        assert(current_direction == game_state@.players[idx as int].head().1);
    }

    let mut acceptable: Vec<Direction> = Vec::new();
    let mut i: usize = 0;
    while i < 4
        invariant
            game_state@.wf(),
            idx == game_state@.active_player,
            i <= 4,
            acceptable@ == safe_prefix(game_state@, i as int),
        decreases 4 - i,
    {
        let direction = direction_in_order(i);
        let mut cloned_state = game_state.clone();
        proof {
            cloned_state.lemma_players_model();
            assert(cloned_state@.players[idx as int] == cloned_state.players@[idx as int]@);
        }
        let active = &mut cloned_state.players[idx];
        active.set_direction(direction);
        proof {
            cloned_state.lemma_players_model();
            assert(cloned_state@.players[idx as int] == cloned_state.players@[idx as int]@);
            assert forall|t: int|
                0 <= t < cloned_state@.players.len() && t != idx implies #[trigger] cloned_state@.players[t]
                == game_state@.players[t] by {
                assert(cloned_state@.players[t] == cloned_state.players@[t]@);
                assert(game_state@.players[t] == cloned_state.players@[t]@);
            }
            assert(cloned_state@ =~= game_state@.with_active_heading(direction));
            assert(game_state@.players[idx as int].wf(
                game_state.grid_width,
                game_state.grid_height,
            ));
            assert(cloned_state@.players[idx as int].head().0 == game_state@.players[
                idx as int
            ].head().0);
        }
        cloned_state.step();
        proof {
            assert(cloned_state@ == game_state@.with_active_heading(direction).stepped());
        }
        if !cloned_state.has_collision() {
            acceptable.push(direction);
            proof {
                assert(acceptable@ =~= safe_prefix(game_state@, i as int + 1));
            }
        } else {
            proof {
                assert(acceptable@ =~= safe_prefix(game_state@, i as int + 1));
            }
        }
        i = i + 1;
    }

    if acceptable.len() == 0 {
        return current_direction;
    }

    if keep_roll && contains_direction(&acceptable, current_direction) {
        proof {
            lemma_safe_prefix_safe(game_state@, 4);
            let w = choose|t: int|
                0 <= t < acceptable@.len() && acceptable@[t] == current_direction;
            assert(!sim_collides(game_state@, acceptable@[w]));
        }
        return current_direction;
    }

    let chosen = acceptable[pick % acceptable.len()];
    proof {
        lemma_safe_prefix_safe(game_state@, 4);
        assert((pick % acceptable.len()) as int == pick as int % acceptable@.len() as int);
    }
    chosen
}

} // verus!
