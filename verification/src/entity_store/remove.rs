//! Changes that take a component from an entity.

use vstd::prelude::*;
use crate::entity_store::{ComponentType, EntityChange, EntityId};

verus! {

pub fn solid(id: EntityId) -> (c: EntityChange)
    ensures
        c == EntityChange::Remove(id, ComponentType::Solid),
{
    EntityChange::Remove(id, ComponentType::Solid)
}

} // verus!
