//! The entities of the world, as the changes that make them.
//!
//! Each prototype appends to a list the changes that give an entity its
//! components, in a fixed order that starts with its coordinate and its
//! position.  Scalars are in thousandths.

use vstd::prelude::*;
use crate::content::depth::{DepthInfo, DepthType};
use crate::content::door::{DoorInfo, DoorState, DoorType};
use crate::content::field_ui::FieldUiOffsets;
use crate::content::health::HealthInfo;
use crate::content::light::LightInfo;
use crate::content::sprite::TileSprite;
use crate::content::sprite_effect::SpriteEffectInfo;
use crate::coord::{Coord, Milli};
use crate::entity_store::{insert, ComponentValue, EntityChange, EntityId};

verus! {

/// The changes that put the entity `id` at `coord`.
pub open spec fn placed(id: EntityId, coord: Coord) -> Seq<EntityChange> {
    seq![
        EntityChange::Insert(id, ComponentValue::Coord(coord)),
        EntityChange::Insert(id, ComponentValue::Position(coord.spec_cast())),
    ]
}

/// Appends the changes that put the entity `id` at `coord`.
fn place(changes: &mut Vec<EntityChange>, id: EntityId, coord: Coord)
    ensures
        final(changes)@ == old(changes)@ + placed(id, coord),
{
    changes.push(insert::coord(id, coord));
    changes.push(insert::position(id, coord.cast()));
    assert(changes@ =~= old(changes)@ + placed(id, coord));
}

/// An angler: the player's entity.
pub open spec fn spec_angler(id: EntityId, coord: Coord) -> Seq<EntityChange> {
    placed(id, coord) + seq![
        EntityChange::Insert(id, ComponentValue::Sprite(TileSprite::Angler)),
        EntityChange::Insert(id, ComponentValue::Depth(DepthInfo { typ: DepthType::Fixed, offset: -390i32 })),
        EntityChange::Insert(id, ComponentValue::Collider),
        EntityChange::Insert(id, ComponentValue::Player),
        EntityChange::Insert(id, ComponentValue::DoorOpener),
        EntityChange::Insert(id, ComponentValue::Light(LightInfo { intensity: 200, range: 20, height: 1000, red: 1000, green: 1000, blue: 1000 })),
        EntityChange::Insert(id, ComponentValue::BumpAttack),
        EntityChange::Insert(id, ComponentValue::Attackable),
    ]
}

/// An angler: the player's entity.
pub fn angler(changes: &mut Vec<EntityChange>, id: EntityId, coord: Coord)
    ensures
        final(changes)@ == old(changes)@ + spec_angler(id, coord),
{
    place(changes, id, coord);
    changes.push(insert::sprite(id, TileSprite::Angler));
    changes.push(insert::depth(id, DepthInfo::new(DepthType::Fixed, -390)));
    changes.push(insert::collider(id));
    changes.push(insert::player(id));
    changes.push(insert::door_opener(id));
    changes.push(insert::light(id, LightInfo::new(200, 20, 1000, 1000, 1000, 1000)));
    changes.push(insert::bump_attack(id));
    changes.push(insert::attackable(id));
    assert(changes@ =~= old(changes)@ + spec_angler(id, coord));
}

/// A crab: an NPC with eight health.
pub open spec fn spec_crab(id: EntityId, coord: Coord) -> Seq<EntityChange> {
    placed(id, coord) + seq![
        EntityChange::Insert(id, ComponentValue::Sprite(TileSprite::Crab)),
        EntityChange::Insert(id, ComponentValue::Depth(DepthInfo { typ: DepthType::Fixed, offset: -400i32 })),
        EntityChange::Insert(id, ComponentValue::Collider),
        EntityChange::Insert(id, ComponentValue::Npc),
        EntityChange::Insert(id, ComponentValue::BumpAttack),
        EntityChange::Insert(id, ComponentValue::Attackable),
        EntityChange::Insert(id, ComponentValue::Health(HealthInfo { current: 8, max: 8 })),
        EntityChange::Insert(id, ComponentValue::FieldUi(FieldUiOffsets { health_vertical: 7 })),
        EntityChange::Insert(id, ComponentValue::HideInDark),
    ]
}

/// A crab: an NPC with eight health.
pub fn crab(changes: &mut Vec<EntityChange>, id: EntityId, coord: Coord)
    ensures
        final(changes)@ == old(changes)@ + spec_crab(id, coord),
{
    place(changes, id, coord);
    changes.push(insert::sprite(id, TileSprite::Crab));
    changes.push(insert::depth(id, DepthInfo::new(DepthType::Fixed, -400)));
    changes.push(insert::collider(id));
    changes.push(insert::npc(id));
    changes.push(insert::bump_attack(id));
    changes.push(insert::attackable(id));
    changes.push(insert::health(id, HealthInfo::full(8)));
    changes.push(insert::field_ui(id, FieldUiOffsets { health_vertical: 7 }));
    changes.push(insert::hide_in_dark(id));
    assert(changes@ =~= old(changes)@ + spec_crab(id, coord));
}

/// A snail: an NPC with three health.
pub open spec fn spec_snail(id: EntityId, coord: Coord) -> Seq<EntityChange> {
    placed(id, coord) + seq![
        EntityChange::Insert(id, ComponentValue::Sprite(TileSprite::Snail)),
        EntityChange::Insert(id, ComponentValue::Depth(DepthInfo { typ: DepthType::Fixed, offset: -400i32 })),
        EntityChange::Insert(id, ComponentValue::Collider),
        EntityChange::Insert(id, ComponentValue::Npc),
        EntityChange::Insert(id, ComponentValue::BumpAttack),
        EntityChange::Insert(id, ComponentValue::Attackable),
        EntityChange::Insert(id, ComponentValue::Health(HealthInfo { current: 3, max: 3 })),
        EntityChange::Insert(id, ComponentValue::FieldUi(FieldUiOffsets { health_vertical: 1 })),
        EntityChange::Insert(id, ComponentValue::HideInDark),
    ]
}

/// A snail: an NPC with three health.
pub fn snail(changes: &mut Vec<EntityChange>, id: EntityId, coord: Coord)
    ensures
        final(changes)@ == old(changes)@ + spec_snail(id, coord),
{
    place(changes, id, coord);
    changes.push(insert::sprite(id, TileSprite::Snail));
    changes.push(insert::depth(id, DepthInfo::new(DepthType::Fixed, -400)));
    changes.push(insert::collider(id));
    changes.push(insert::npc(id));
    changes.push(insert::bump_attack(id));
    changes.push(insert::attackable(id));
    changes.push(insert::health(id, HealthInfo::full(3)));
    changes.push(insert::field_ui(id, FieldUiOffsets { health_vertical: 1 }));
    changes.push(insert::hide_in_dark(id));
    assert(changes@ =~= old(changes)@ + spec_snail(id, coord));
}

/// A wall inside a building.
pub open spec fn spec_inner_wall(id: EntityId, coord: Coord) -> Seq<EntityChange> {
    placed(id, coord) + seq![
        EntityChange::Insert(id, ComponentValue::Wall),
        EntityChange::Insert(id, ComponentValue::Solid),
        EntityChange::Insert(id, ComponentValue::Opacity(1000)),
        EntityChange::Insert(id, ComponentValue::Sprite(TileSprite::InnerWall)),
        EntityChange::Insert(id, ComponentValue::Depth(DepthInfo { typ: DepthType::Fixed, offset: 0 })),
    ]
}

/// A wall inside a building.
pub fn inner_wall(changes: &mut Vec<EntityChange>, id: EntityId, coord: Coord)
    ensures
        final(changes)@ == old(changes)@ + spec_inner_wall(id, coord),
{
    place(changes, id, coord);
    changes.push(insert::wall(id));
    changes.push(insert::solid(id));
    changes.push(insert::opacity(id, 1000));
    changes.push(insert::sprite(id, TileSprite::InnerWall));
    changes.push(insert::depth(id, DepthType::Fixed.into_info()));
    assert(changes@ =~= old(changes)@ + spec_inner_wall(id, coord));
}

/// A wall around a building.
pub open spec fn spec_outer_wall(id: EntityId, coord: Coord) -> Seq<EntityChange> {
    placed(id, coord) + seq![
        EntityChange::Insert(id, ComponentValue::Wall),
        EntityChange::Insert(id, ComponentValue::Solid),
        EntityChange::Insert(id, ComponentValue::Opacity(1000)),
        EntityChange::Insert(id, ComponentValue::Sprite(TileSprite::OuterWall)),
        EntityChange::Insert(id, ComponentValue::Depth(DepthInfo { typ: DepthType::Fixed, offset: -750i32 })),
    ]
}

/// A wall around a building.
pub fn outer_wall(changes: &mut Vec<EntityChange>, id: EntityId, coord: Coord)
    ensures
        final(changes)@ == old(changes)@ + spec_outer_wall(id, coord),
{
    place(changes, id, coord);
    changes.push(insert::wall(id));
    changes.push(insert::solid(id));
    changes.push(insert::opacity(id, 1000));
    changes.push(insert::sprite(id, TileSprite::OuterWall));
    changes.push(insert::depth(id, DepthInfo::new(DepthType::Fixed, -750)));
    assert(changes@ =~= old(changes)@ + spec_outer_wall(id, coord));
}

/// A floor inside a building.
pub open spec fn spec_inner_floor(id: EntityId, coord: Coord) -> Seq<EntityChange> {
    placed(id, coord) + seq![
        EntityChange::Insert(id, ComponentValue::Sprite(TileSprite::InnerFloor)),
        EntityChange::Insert(id, ComponentValue::Depth(DepthInfo { typ: DepthType::Bottom, offset: 0 })),
    ]
}

/// A floor inside a building.
pub fn inner_floor(changes: &mut Vec<EntityChange>, id: EntityId, coord: Coord)
    ensures
        final(changes)@ == old(changes)@ + spec_inner_floor(id, coord),
{
    place(changes, id, coord);
    changes.push(insert::sprite(id, TileSprite::InnerFloor));
    changes.push(insert::depth(id, DepthType::Bottom.into_info()));
    assert(changes@ =~= old(changes)@ + spec_inner_floor(id, coord));
}

/// Water inside a building.
pub open spec fn spec_inner_water(id: EntityId, coord: Coord) -> Seq<EntityChange> {
    placed(id, coord) + seq![
        EntityChange::Insert(id, ComponentValue::Sprite(TileSprite::InnerWater)),
        EntityChange::Insert(id, ComponentValue::Depth(DepthInfo { typ: DepthType::Gradient, offset: 10 })),
        EntityChange::Insert(id, ComponentValue::SpriteEffect(SpriteEffectInfo::Water { steps: 6, min: 300, max: 700 })),
    ]
}

/// Water inside a building.
pub fn inner_water(changes: &mut Vec<EntityChange>, id: EntityId, coord: Coord)
    ensures
        final(changes)@ == old(changes)@ + spec_inner_water(id, coord),
{
    place(changes, id, coord);
    changes.push(insert::sprite(id, TileSprite::InnerWater));
    changes.push(insert::depth(id, DepthInfo::new(DepthType::Gradient, 10)));
    changes.push(insert::sprite_effect(id, SpriteEffectInfo::water(6, 300, 700)));
    assert(changes@ =~= old(changes)@ + spec_inner_water(id, coord));
}

/// The water-covered ground outside.
pub open spec fn spec_outer_floor(id: EntityId, coord: Coord) -> Seq<EntityChange> {
    placed(id, coord) + seq![
        EntityChange::Insert(id, ComponentValue::Sprite(TileSprite::OuterFloor)),
        EntityChange::Insert(id, ComponentValue::Depth(DepthInfo { typ: DepthType::Bottom, offset: 0 })),
        EntityChange::Insert(id, ComponentValue::SpriteEffect(SpriteEffectInfo::Water { steps: 3, min: 200, max: 800 })),
    ]
}

/// The water-covered ground outside.
pub fn outer_floor(changes: &mut Vec<EntityChange>, id: EntityId, coord: Coord)
    ensures
        final(changes)@ == old(changes)@ + spec_outer_floor(id, coord),
{
    place(changes, id, coord);
    changes.push(insert::sprite(id, TileSprite::OuterFloor));
    changes.push(insert::depth(id, DepthType::Bottom.into_info()));
    changes.push(insert::sprite_effect(id, SpriteEffectInfo::water(3, 200, 800)));
    assert(changes@ =~= old(changes)@ + spec_outer_floor(id, coord));
}

/// A closed door inside a building.
pub open spec fn spec_inner_door(id: EntityId, coord: Coord) -> Seq<EntityChange> {
    placed(id, coord) + seq![
        EntityChange::Insert(id, ComponentValue::Sprite(TileSprite::InnerDoor)),
        EntityChange::Insert(id, ComponentValue::Depth(DepthInfo { typ: DepthType::Gradient, offset: 0 })),
        EntityChange::Insert(id, ComponentValue::Door(DoorInfo { typ: DoorType::Inner, state: DoorState::Closed })),
        EntityChange::Insert(id, ComponentValue::Solid),
        EntityChange::Insert(id, ComponentValue::Opacity(1000)),
    ]
}

/// A closed door inside a building.
pub fn inner_door(changes: &mut Vec<EntityChange>, id: EntityId, coord: Coord)
    ensures
        final(changes)@ == old(changes)@ + spec_inner_door(id, coord),
{
    place(changes, id, coord);
    changes.push(insert::sprite(id, TileSprite::InnerDoor));
    changes.push(insert::depth(id, DepthType::Gradient.into_info()));
    changes.push(insert::door(id, DoorInfo::new(DoorType::Inner, DoorState::Closed)));
    changes.push(insert::solid(id));
    changes.push(insert::opacity(id, 1000));
    assert(changes@ =~= old(changes)@ + spec_inner_door(id, coord));
}

/// A closed door of a building.
pub open spec fn spec_outer_door(id: EntityId, coord: Coord) -> Seq<EntityChange> {
    placed(id, coord) + seq![
        EntityChange::Insert(id, ComponentValue::Sprite(TileSprite::OuterDoor)),
        EntityChange::Insert(id, ComponentValue::Depth(DepthInfo { typ: DepthType::Gradient, offset: 0 })),
        EntityChange::Insert(id, ComponentValue::Door(DoorInfo { typ: DoorType::Outer, state: DoorState::Closed })),
        EntityChange::Insert(id, ComponentValue::Solid),
        EntityChange::Insert(id, ComponentValue::Opacity(1000)),
    ]
}

/// A closed door of a building.
pub fn outer_door(changes: &mut Vec<EntityChange>, id: EntityId, coord: Coord)
    ensures
        final(changes)@ == old(changes)@ + spec_outer_door(id, coord),
{
    place(changes, id, coord);
    changes.push(insert::sprite(id, TileSprite::OuterDoor));
    changes.push(insert::depth(id, DepthType::Gradient.into_info()));
    changes.push(insert::door(id, DoorInfo::new(DoorType::Outer, DoorState::Closed)));
    changes.push(insert::solid(id));
    changes.push(insert::opacity(id, 1000));
    assert(changes@ =~= old(changes)@ + spec_outer_door(id, coord));
}

/// A window: it does not stop light, it lets more through.
pub open spec fn spec_window(id: EntityId, coord: Coord) -> Seq<EntityChange> {
    placed(id, coord) + seq![
        EntityChange::Insert(id, ComponentValue::Sprite(TileSprite::Window)),
        EntityChange::Insert(id, ComponentValue::Depth(DepthInfo { typ: DepthType::Fixed, offset: 500 })),
        EntityChange::Insert(id, ComponentValue::Opacity(-1000i32)),
    ]
}

/// A window: it does not stop light, it lets more through.
pub fn window(changes: &mut Vec<EntityChange>, id: EntityId, coord: Coord)
    ensures
        final(changes)@ == old(changes)@ + spec_window(id, coord),
{
    place(changes, id, coord);
    changes.push(insert::sprite(id, TileSprite::Window));
    changes.push(insert::depth(id, DepthInfo::new(DepthType::Fixed, 500)));
    changes.push(insert::opacity(id, -1000));
    assert(changes@ =~= old(changes)@ + spec_window(id, coord));
}

/// A lamp of the given colour, with its three channels in thousandths.
pub open spec fn spec_light(id: EntityId, coord: Coord, colour: [Milli; 3]) -> Seq<EntityChange> {
    placed(id, coord) + seq![
        EntityChange::Insert(id, ComponentValue::Sprite(TileSprite::Light)),
        EntityChange::Insert(id, ComponentValue::Depth(DepthInfo { typ: DepthType::Fixed, offset: 0 })),
        EntityChange::Insert(
            id,
            ComponentValue::Light(
                LightInfo {
                    intensity: 1000,
                    range: 20,
                    height: 2000,
                    red: colour[0],
                    green: colour[1],
                    blue: colour[2],
                },
            ),
        ),
    ]
}

/// A lamp of the given colour, with its three channels in thousandths.
pub fn light(changes: &mut Vec<EntityChange>, id: EntityId, coord: Coord, colour: [Milli; 3])
    ensures
        final(changes)@ == old(changes)@ + spec_light(id, coord, colour),
{
    place(changes, id, coord);
    changes.push(insert::sprite(id, TileSprite::Light));
    changes.push(insert::depth(id, DepthInfo::new(DepthType::Fixed, 0)));
    changes.push(insert::light(id, LightInfo::new(1000, 20, 2000, colour[0], colour[1], colour[2])));
    assert(changes@ =~= old(changes)@ + spec_light(id, coord, colour));
}

} // verus!
