//! Changes that give an entity a component.

use vstd::prelude::*;
use crate::content::depth::DepthInfo;
use crate::content::door::DoorInfo;
use crate::content::field_ui::FieldUiOffsets;
use crate::content::health::HealthInfo;
use crate::content::light::LightInfo;
use crate::content::sprite::TileSprite;
use crate::content::sprite_effect::SpriteEffectInfo;
use crate::coord::{Coord, Milli, Position};
use crate::entity_store::{ComponentValue, EntityChange, EntityId};

verus! {

pub fn coord(id: EntityId, value: Coord) -> (c: EntityChange)
    ensures
        c == EntityChange::Insert(id, ComponentValue::Coord(value)),
{
    EntityChange::Insert(id, ComponentValue::Coord(value))
}

pub fn position(id: EntityId, value: Position) -> (c: EntityChange)
    ensures
        c == EntityChange::Insert(id, ComponentValue::Position(value)),
{
    EntityChange::Insert(id, ComponentValue::Position(value))
}

pub fn door(id: EntityId, value: DoorInfo) -> (c: EntityChange)
    ensures
        c == EntityChange::Insert(id, ComponentValue::Door(value)),
{
    EntityChange::Insert(id, ComponentValue::Door(value))
}

pub fn door_closing_finished(id: EntityId) -> (c: EntityChange)
    ensures
        c == EntityChange::Insert(id, ComponentValue::DoorClosingFinished),
{
    EntityChange::Insert(id, ComponentValue::DoorClosingFinished)
}

pub fn health(id: EntityId, value: HealthInfo) -> (c: EntityChange)
    ensures
        c == EntityChange::Insert(id, ComponentValue::Health(value)),
{
    EntityChange::Insert(id, ComponentValue::Health(value))
}

pub fn sprite(id: EntityId, value: TileSprite) -> (c: EntityChange)
    ensures
        c == EntityChange::Insert(id, ComponentValue::Sprite(value)),
{
    EntityChange::Insert(id, ComponentValue::Sprite(value))
}

pub fn opacity(id: EntityId, value: Milli) -> (c: EntityChange)
    ensures
        c == EntityChange::Insert(id, ComponentValue::Opacity(value)),
{
    EntityChange::Insert(id, ComponentValue::Opacity(value))
}

pub fn solid(id: EntityId) -> (c: EntityChange)
    ensures
        c == EntityChange::Insert(id, ComponentValue::Solid),
{
    EntityChange::Insert(id, ComponentValue::Solid)
}

pub fn collider(id: EntityId) -> (c: EntityChange)
    ensures
        c == EntityChange::Insert(id, ComponentValue::Collider),
{
    EntityChange::Insert(id, ComponentValue::Collider)
}

pub fn npc(id: EntityId) -> (c: EntityChange)
    ensures
        c == EntityChange::Insert(id, ComponentValue::Npc),
{
    EntityChange::Insert(id, ComponentValue::Npc)
}

pub fn player(id: EntityId) -> (c: EntityChange)
    ensures
        c == EntityChange::Insert(id, ComponentValue::Player),
{
    EntityChange::Insert(id, ComponentValue::Player)
}

pub fn door_opener(id: EntityId) -> (c: EntityChange)
    ensures
        c == EntityChange::Insert(id, ComponentValue::DoorOpener),
{
    EntityChange::Insert(id, ComponentValue::DoorOpener)
}

pub fn bump_attack(id: EntityId) -> (c: EntityChange)
    ensures
        c == EntityChange::Insert(id, ComponentValue::BumpAttack),
{
    EntityChange::Insert(id, ComponentValue::BumpAttack)
}

pub fn attackable(id: EntityId) -> (c: EntityChange)
    ensures
        c == EntityChange::Insert(id, ComponentValue::Attackable),
{
    EntityChange::Insert(id, ComponentValue::Attackable)
}

pub fn wall(id: EntityId) -> (c: EntityChange)
    ensures
        c == EntityChange::Insert(id, ComponentValue::Wall),
{
    EntityChange::Insert(id, ComponentValue::Wall)
}

pub fn hide_in_dark(id: EntityId) -> (c: EntityChange)
    ensures
        c == EntityChange::Insert(id, ComponentValue::HideInDark),
{
    EntityChange::Insert(id, ComponentValue::HideInDark)
}

pub fn depth(id: EntityId, value: DepthInfo) -> (c: EntityChange)
    ensures
        c == EntityChange::Insert(id, ComponentValue::Depth(value)),
{
    EntityChange::Insert(id, ComponentValue::Depth(value))
}

pub fn light(id: EntityId, value: LightInfo) -> (c: EntityChange)
    ensures
        c == EntityChange::Insert(id, ComponentValue::Light(value)),
{
    EntityChange::Insert(id, ComponentValue::Light(value))
}

pub fn sprite_effect(id: EntityId, value: SpriteEffectInfo) -> (c: EntityChange)
    ensures
        c == EntityChange::Insert(id, ComponentValue::SpriteEffect(value)),
{
    EntityChange::Insert(id, ComponentValue::SpriteEffect(value))
}

pub fn field_ui(id: EntityId, value: FieldUiOffsets) -> (c: EntityChange)
    ensures
        c == EntityChange::Insert(id, ComponentValue::FieldUi(value)),
{
    EntityChange::Insert(id, ComponentValue::FieldUi(value))
}

} // verus!
