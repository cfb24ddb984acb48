//! Server-side core of a real-time multiplayer racing game.
//!
//! Players register with a bearer token and are grouped into pending
//! matches; a scheduler promotes the oldest non-empty pending match into
//! the single active race; a fixed-tick simulation applies the latest
//! control input of each player, records finish times exactly once, and
//! drives the race lifecycle from Running through Finished back to
//! Inactive after a settle window.
//!
//! All game arithmetic is carried out on integers: lengths in
//! milli-units, angles in milliradians and times in milliseconds, so the
//! whole rule set is verified. Floating-point integration is the physics
//! collaborator's business and stays outside this crate.

use vstd::prelude::*;

pub mod app_state;
pub mod components;
pub mod control;
pub mod game_logic;
pub mod game_state;
pub mod geometry;
pub mod ids;
pub mod leaderboard;
pub mod map;
pub mod network;
pub mod physics;
pub mod player;
pub mod rng;
pub mod ship;

verus! {

/// Capacity of a pending match: registration opens a fresh match once
/// the open one holds this many players.
pub const MAX_PLAYERS: usize = 5;

} // verus!
