//! Ship records: the public per-player snapshot and the simulation-side
//! control constants.

use vstd::prelude::*;
use crate::geometry::Vec2i;

verus! {

/// Linear impulse a ship exerts at full thrust, in milli-units.
pub const SHIP_IMPULSE: i64 = 8_000_000;

/// Torque impulse a ship exerts at full rotation input, in milli-units.
pub const SHIP_TORQUE_IMPULSE: i64 = 8_000_000;

/// Half the ship sprite's extent, in milli-units: used to keep the whole
/// ship inside the map bounds.
pub const SHIP_HALF_EXTENT: i64 = 12_500;

/// Public snapshot of one simulated ship, copied out of the physics
/// collaborator after each tick. Position and velocity are in
/// milli-units, orientation in milliradians.
#[derive(PartialEq, Eq, Structural, Clone, Copy, Debug)]
pub struct Ship {
    pub id: u128,
    pub position: Vec2i,
    pub velocity: Vec2i,
    pub orientation: i64,
    pub angular_velocity: i64,
}

/// Per-ship control constants, as the physics collaborator's body
/// registry carries them.
#[derive(PartialEq, Eq, Structural, Clone, Copy, Debug)]
pub struct ControllableShip {
    pub id: u128,
    pub impulse: i64,
    pub torque_impulse: i64,
}

} // verus!
