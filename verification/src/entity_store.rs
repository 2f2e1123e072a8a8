//! Entities, their components, and the changes proposed to them.

pub mod insert;
pub mod remove;

use vstd::prelude::*;
use std::collections::{HashMap, HashSet};
use crate::content::depth::DepthInfo;
use crate::content::door::DoorInfo;
use crate::content::field_ui::FieldUiOffsets;
use crate::content::health::HealthInfo;
use crate::content::light::LightInfo;
use crate::content::sprite::TileSprite;
use crate::content::sprite_effect::SpriteEffectInfo;
use crate::coord::{Coord, Milli, Position};

verus! {

/// Identifies one entity for as long as it lives.
pub type EntityId = u64;

/// One component of an entity, with its payload.
#[derive(Clone, Copy, Debug, PartialEq, Eq, Structural, Hash)]
pub enum ComponentValue {
    Coord(Coord),
    Position(Position),
    Door(DoorInfo),
    DoorClosingFinished,
    Health(HealthInfo),
    Sprite(TileSprite),
    Opacity(Milli),
    Solid,
    Collider,
    Npc,
    Player,
    DoorOpener,
    BumpAttack,
    Attackable,
    Wall,
    HideInDark,
    Depth(DepthInfo),
    Light(LightInfo),
    SpriteEffect(SpriteEffectInfo),
    FieldUi(FieldUiOffsets),
}

/// The kind of a component, without a payload.
#[derive(Clone, Copy, Debug, PartialEq, Eq, Structural, Hash)]
pub enum ComponentType {
    Coord,
    Position,
    Door,
    DoorClosingFinished,
    Health,
    Sprite,
    Opacity,
    Solid,
    Collider,
    Npc,
    Player,
    DoorOpener,
    BumpAttack,
    Attackable,
    Wall,
    HideInDark,
    Depth,
    Light,
    SpriteEffect,
    FieldUi,
}

/// One proposed or committed mutation of the world.
#[derive(Clone, Copy, Debug, PartialEq, Eq, Structural, Hash)]
pub enum EntityChange {
    Insert(EntityId, ComponentValue),
    Remove(EntityId, ComponentType),
}

impl ComponentValue {
    pub open spec fn spec_typ(self) -> ComponentType {
        match self {
            ComponentValue::Coord(_) => ComponentType::Coord,
            ComponentValue::Position(_) => ComponentType::Position,
            ComponentValue::Door(_) => ComponentType::Door,
            ComponentValue::DoorClosingFinished => ComponentType::DoorClosingFinished,
            ComponentValue::Health(_) => ComponentType::Health,
            ComponentValue::Sprite(_) => ComponentType::Sprite,
            ComponentValue::Opacity(_) => ComponentType::Opacity,
            ComponentValue::Solid => ComponentType::Solid,
            ComponentValue::Collider => ComponentType::Collider,
            ComponentValue::Npc => ComponentType::Npc,
            ComponentValue::Player => ComponentType::Player,
            ComponentValue::DoorOpener => ComponentType::DoorOpener,
            ComponentValue::BumpAttack => ComponentType::BumpAttack,
            ComponentValue::Attackable => ComponentType::Attackable,
            ComponentValue::Wall => ComponentType::Wall,
            ComponentValue::HideInDark => ComponentType::HideInDark,
            ComponentValue::Depth(_) => ComponentType::Depth,
            ComponentValue::Light(_) => ComponentType::Light,
            ComponentValue::SpriteEffect(_) => ComponentType::SpriteEffect,
            ComponentValue::FieldUi(_) => ComponentType::FieldUi,
        }
    }

    /// The kind of the component.
    pub fn typ(self) -> (t: ComponentType)
        ensures
            t == self.spec_typ(),
    {
        match self {
            ComponentValue::Coord(_) => ComponentType::Coord,
            ComponentValue::Position(_) => ComponentType::Position,
            ComponentValue::Door(_) => ComponentType::Door,
            ComponentValue::DoorClosingFinished => ComponentType::DoorClosingFinished,
            ComponentValue::Health(_) => ComponentType::Health,
            ComponentValue::Sprite(_) => ComponentType::Sprite,
            ComponentValue::Opacity(_) => ComponentType::Opacity,
            ComponentValue::Solid => ComponentType::Solid,
            ComponentValue::Collider => ComponentType::Collider,
            ComponentValue::Npc => ComponentType::Npc,
            ComponentValue::Player => ComponentType::Player,
            ComponentValue::DoorOpener => ComponentType::DoorOpener,
            ComponentValue::BumpAttack => ComponentType::BumpAttack,
            ComponentValue::Attackable => ComponentType::Attackable,
            ComponentValue::Wall => ComponentType::Wall,
            ComponentValue::HideInDark => ComponentType::HideInDark,
            ComponentValue::Depth(_) => ComponentType::Depth,
            ComponentValue::Light(_) => ComponentType::Light,
            ComponentValue::SpriteEffect(_) => ComponentType::SpriteEffect,
            ComponentValue::FieldUi(_) => ComponentType::FieldUi,
        }
    }
}

impl EntityChange {
    pub open spec fn spec_id(self) -> EntityId {
        match self {
            EntityChange::Insert(id, _) => id,
            EntityChange::Remove(id, _) => id,
        }
    }

    pub open spec fn spec_typ(self) -> ComponentType {
        match self {
            EntityChange::Insert(_, value) => value.spec_typ(),
            EntityChange::Remove(_, typ) => typ,
        }
    }

    /// The entity that the change is about.
    pub fn id(self) -> (id: EntityId)
        ensures
            id == self.spec_id(),
    {
        match self {
            EntityChange::Insert(id, _) => id,
            EntityChange::Remove(id, _) => id,
        }
    }

    /// The kind of component that the change inserts or removes.
    pub fn typ(self) -> (t: ComponentType)
        ensures
            t == self.spec_typ(),
    {
        match self {
            EntityChange::Insert(_, value) => value.typ(),
            EntityChange::Remove(_, typ) => typ,
        }
    }
}

/// The components of all entities that the policy reads: a read-only
/// snapshot while one change is judged.
pub struct EntityStore {
    pub coord: HashMap<EntityId, Coord>,
    pub door: HashMap<EntityId, DoorInfo>,
    pub health: HashMap<EntityId, HealthInfo>,
    pub collider: HashSet<EntityId>,
    pub npc: HashSet<EntityId>,
    pub player: HashSet<EntityId>,
    pub door_opener: HashSet<EntityId>,
    pub bump_attack: HashSet<EntityId>,
    pub attackable: HashSet<EntityId>,
}

impl EntityStore {
    /// A store without entities.
    pub fn new() -> (s: EntityStore)
        ensures
            s.coord@ == Map::<EntityId, Coord>::empty(),
            s.door@ == Map::<EntityId, DoorInfo>::empty(),
            s.health@ == Map::<EntityId, HealthInfo>::empty(),
            s.collider@ == Set::<EntityId>::empty(),
            s.npc@ == Set::<EntityId>::empty(),
            s.player@ == Set::<EntityId>::empty(),
            s.door_opener@ == Set::<EntityId>::empty(),
            s.bump_attack@ == Set::<EntityId>::empty(),
            s.attackable@ == Set::<EntityId>::empty(),
    {
        EntityStore {
            coord: HashMap::new(),
            door: HashMap::new(),
            health: HashMap::new(),
            collider: HashSet::new(),
            npc: HashSet::new(),
            player: HashSet::new(),
            door_opener: HashSet::new(),
            bump_attack: HashSet::new(),
            attackable: HashSet::new(),
        }
    }
}

} // verus!
