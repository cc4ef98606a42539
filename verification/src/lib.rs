//! A deterministic, turn-based simulation engine for a trail/wall game on a
//! fixed grid. Each player leaves an impassable trail behind its moving head;
//! a player that runs into a wall, a trail, or another head is eliminated for
//! the round and the other players score a point, until someone reaches the
//! target score.
//!
//! The crate holds the game logic only: wrap-around geometry, the player and
//! trail model, the round state machine, the inference of renderable wall
//! shapes from trails and obstacle rings, and the one-step-lookahead bot.
//! Drawing, input devices and scheduling are left to the embedding program,
//! which drives the engine through `GameState::tick` and reads back the
//! snapshot, optionally rendered into a `Grid` of cells.

pub mod bot;
pub mod common;
pub mod game;
pub mod layout;
