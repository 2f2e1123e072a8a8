//! Hands out entity ids.

use vstd::prelude::*;
use crate::entity_store::EntityId;

verus! {

/// Hands out ids in rising order, each once.
pub struct EntityIdAllocator {
    pub next: EntityId,
}

impl EntityIdAllocator {
    pub fn new() -> (a: EntityIdAllocator)
        ensures
            a.next == 0,
    {
        EntityIdAllocator { next: 0 }
    }

    /// The number of ids that are left to hand out.
    pub fn remaining(&self) -> (n: u64)
        ensures
            n == u64::MAX - self.next,
    {
        u64::MAX - self.next
    }

    /// A fresh id: the lowest one not handed out before.
    pub fn allocate(&mut self) -> (id: EntityId)
        requires
            old(self).next < u64::MAX,
        ensures
            id == old(self).next,
            final(self).next == old(self).next + 1,
    {
        let id = self.next;
        self.next = self.next + 1;
        id
    }
}

} // verus!
