//! Worlds, as the changes that make them.

pub mod water;

use vstd::prelude::*;
use crate::entity_store::EntityId;

verus! {

/// What a generated world tells about itself.
#[derive(Debug, Clone, Copy, PartialEq, Eq)]
pub struct TerrainMetadata {
    pub width: u32,
    pub height: u32,
    pub player_id: Option<EntityId>,
}

impl Default for TerrainMetadata {
    /// An empty world without a player.
    fn default() -> (m: Self)
        ensures
            m.width == 0,
            m.height == 0,
            m.player_id is None,
    {
        TerrainMetadata { width: 0, height: 0, player_id: None }
    }
}

} // verus!
