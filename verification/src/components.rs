//! Marker types tagging the roles entities play in a race scene.

use vstd::prelude::*;

verus! {

/// A registered human participant, as opposed to scenery.
pub struct Person;

/// Display label attached to an entity.
pub struct Name(pub String);

/// Tags geometry whose contact with a ship marks that player as
/// finished.
pub struct FinishRegion;

/// Tags every entity that belongs to the current race and is torn down
/// when the race is cleared.
pub struct ActiveGameEntity;

} // verus!
