//! Markers for the entities whose position drives chunk loading.
use vstd::prelude::*;

verus! {

/// The player; the per-player loader evicts chunks it has moved away from.
#[derive(Clone, Copy, Debug, Default, PartialEq, Eq)]
pub struct Player;

/// An entity that reveals the map around it; several may share one map, so
/// the loader for them only requests chunks.
#[derive(Clone, Copy, Debug, Default, PartialEq, Eq)]
pub struct MapRevealActor;

} // verus!
