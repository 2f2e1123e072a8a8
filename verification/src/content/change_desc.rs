//! Reaction descriptors: what a judged change sets off.

use vstd::prelude::*;
use crate::content::sprite::{SpriteAnimation, SpriteFrame};
use crate::coord::{Milli, Nanos, Position};
use crate::entity_store::{EntityChange, EntityId};

verus! {

/// A deferred consequence of a change.
#[derive(Debug, Clone, PartialEq, Eq)]
pub enum ChangeDesc {
    /// Applied with no delay.
    Immediate(EntityChange),
    /// The entity's position moves evenly from `from` to `to`.
    Slide { id: EntityId, from: Position, to: Position, duration: Nanos },
    /// The entity shows the frames in turn; `then` follows the last one.
    Sprites { id: EntityId, animation: SpriteAnimation, then: EntityChange },
    /// The entity lunges from `from` towards `to`, covers only `fraction`
    /// (in thousandths) of the way, and falls back; `mid_change` is applied
    /// at the turn.
    BumpSlide {
        id: EntityId,
        from: Position,
        to: Position,
        duration: Nanos,
        fraction: Milli,
        mid_change: Option<EntityChange>,
    },
}

/// A reaction descriptor as a mathematical value.
pub ghost enum ChangeDescView {
    Immediate(EntityChange),
    Slide { id: EntityId, from: Position, to: Position, duration: Nanos },
    Sprites { id: EntityId, animation: Seq<SpriteFrame>, then: EntityChange },
    BumpSlide {
        id: EntityId,
        from: Position,
        to: Position,
        duration: Nanos,
        fraction: Milli,
        mid_change: Option<EntityChange>,
    },
}

impl View for ChangeDesc {
    type V = ChangeDescView;

    open spec fn view(&self) -> ChangeDescView {
        match *self {
            ChangeDesc::Immediate(change) => ChangeDescView::Immediate(change),
            ChangeDesc::Slide { id, from, to, duration } => ChangeDescView::Slide {
                id,
                from,
                to,
                duration,
            },
            ChangeDesc::Sprites { id, animation, then } => ChangeDescView::Sprites {
                id,
                animation: animation@,
                then,
            },
            ChangeDesc::BumpSlide {
                id,
                from,
                to,
                duration,
                fraction,
                mid_change,
            } => ChangeDescView::BumpSlide { id, from, to, duration, fraction, mid_change },
        }
    }
}

impl ChangeDescView {
    /// The entity that the descriptor is about.
    pub open spec fn id(self) -> EntityId {
        match self {
            ChangeDescView::Immediate(change) => change.spec_id(),
            ChangeDescView::Slide { id, .. } => id,
            ChangeDescView::Sprites { id, .. } => id,
            ChangeDescView::BumpSlide { id, .. } => id,
        }
    }
}

/// The descriptors of a list as mathematical values.
pub open spec fn descs_view(descs: Seq<ChangeDesc>) -> Seq<ChangeDescView> {
    descs.map_values(|d: ChangeDesc| d@)
}

/// Appending a descriptor appends its view.
pub proof fn lemma_descs_view_push(descs: Seq<ChangeDesc>, desc: ChangeDesc)
    ensures
        descs_view(descs.push(desc)) == descs_view(descs).push(desc@),
{
    assert(descs_view(descs.push(desc)) =~= descs_view(descs).push(desc@));
}

impl ChangeDesc {
    pub fn immediate(change: EntityChange) -> (d: ChangeDesc)
        ensures
            d@ == ChangeDescView::Immediate(change),
    {
        ChangeDesc::Immediate(change)
    }

    pub fn slide(id: EntityId, from: Position, to: Position, duration: Nanos) -> (d: ChangeDesc)
        ensures
            d@ == (ChangeDescView::Slide { id, from, to, duration }),
    {
        ChangeDesc::Slide { id, from, to, duration }
    }

    pub fn sprites(id: EntityId, animation: SpriteAnimation, then: EntityChange) -> (d: ChangeDesc)
        ensures
            d@ == (ChangeDescView::Sprites { id, animation: animation@, then }),
    {
        ChangeDesc::Sprites { id, animation, then }
    }

    pub fn bump_slide(
        id: EntityId,
        from: Position,
        to: Position,
        duration: Nanos,
        fraction: Milli,
        mid_change: Option<EntityChange>,
    ) -> (d: ChangeDesc)
        ensures
            d@ == (ChangeDescView::BumpSlide { id, from, to, duration, fraction, mid_change }),
    {
        ChangeDesc::BumpSlide { id, from, to, duration, fraction, mid_change }
    }

    /// The entity that the descriptor is about.
    pub fn id(&self) -> (id: EntityId)
        ensures
            id == self@.id(),
    {
        match self {
            ChangeDesc::Immediate(change) => change.id(),
            ChangeDesc::Slide { id, .. } => *id,
            ChangeDesc::Sprites { id, .. } => *id,
            ChangeDesc::BumpSlide { id, .. } => *id,
        }
    }
}

} // verus!
