//! The change policy: whether a proposed change is allowed, and what it
//! sets off.
//!
//! [`check`] reads the world and changes nothing in it.  What follows from
//! a change is returned as data: reaction descriptors and entities to
//! delete.  [`verdict`] states the rules; the lemmas of this module are
//! consequences of them.

use vstd::prelude::*;
use crate::content::change_desc::{descs_view, lemma_descs_view_push, ChangeDesc, ChangeDescView};
use crate::content::door::{DoorInfo, DoorState};
use crate::content::health::HealthInfo;
use crate::coord::{Coord, Milli, Nanos};
use crate::entity_store::{insert, remove, ComponentType, ComponentValue, EntityChange, EntityId, EntityStore};
use crate::spatial_hash::{lemma_lowest_of_inhabited, lowest_of, SpatialHashCell, SpatialHashTable};

verus! {

/// Time that the slide of an accepted move takes.
pub const MOVE_SLIDE_NANOS: Nanos = 50_000_000;

/// Time that the lunge of a bump attack takes, there and back.
pub const BUMP_SLIDE_NANOS: Nanos = 100_000_000;

/// Part of the way to the target that a bump attack covers, in thousandths.
pub const BUMP_SLIDE_FRACTION: Milli = 490;

/// Health that one bump attack takes from its target.
pub const BUMP_ATTACK_DAMAGE: u32 = 1;

/// Opacity of something that light passes through, in thousandths.
pub const OPACITY_CLEAR: Milli = 0;

/// Opacity of something that stops all light, in thousandths.
pub const OPACITY_FULL: Milli = 1000;

/// The outcome of judging one change.
pub ghost struct Verdict {
    /// Whether the change may be applied.
    pub accept: bool,
    /// What the change sets off, in the order of the rules.
    pub reactions: Seq<ChangeDescView>,
    /// Entities to remove from the world.
    pub deletions: Seq<EntityId>,
}

impl Verdict {
    /// The change is applied and sets nothing off.
    pub open spec fn accepted() -> Verdict {
        Verdict { accept: true, reactions: seq![], deletions: seq![] }
    }

    /// The change is dropped and sets nothing off.
    pub open spec fn rejected() -> Verdict {
        Verdict { accept: false, reactions: seq![], deletions: seq![] }
    }
}

/// The closed door that a door opener bumps into in `cell`: the door of
/// the cell with the lowest id, if the store knows it as closed.
pub open spec fn bumped_door(store: &EntityStore, cell: SpatialHashCell) -> Option<
    (EntityId, DoorInfo),
> {
    match lowest_of(cell.door_set@) {
        Some(door_id) => if store.door@.contains_key(door_id) && store.door@[door_id].state
            == DoorState::Closed {
            Some((door_id, store.door@[door_id]))
        } else {
            None
        },
        None => None,
    }
}

/// The change that a bump attack makes to its target: its health, reduced
/// by the damage of one attack.  A target without health is left alone.
pub open spec fn bump_damage(store: &EntityStore, target: EntityId) -> Option<EntityChange> {
    if store.health@.contains_key(target) {
        Some(
            EntityChange::Insert(
                target,
                ComponentValue::Health(store.health@[target].spec_reduce(BUMP_ATTACK_DAMAGE)),
            ),
        )
    } else {
        None
    }
}

/// The rule for an entity that steps from `current` to the different
/// coordinate `coord`, whose cell is `cell`.
pub open spec fn verdict_step(
    id: EntityId,
    current: Coord,
    coord: Coord,
    store: &EntityStore,
    cell: SpatialHashCell,
) -> Verdict {
    if store.npc@.contains(id) && cell.npc_count > 0 {
        Verdict::rejected()
    } else if store.bump_attack@.contains(id) && lowest_of(cell.attackable_set@) is Some {
        Verdict {
            accept: false,
            reactions: seq![
                ChangeDescView::BumpSlide {
                    id,
                    from: current.spec_cast(),
                    to: coord.spec_cast(),
                    duration: BUMP_SLIDE_NANOS,
                    fraction: BUMP_SLIDE_FRACTION,
                    mid_change: bump_damage(store, lowest_of(cell.attackable_set@)->0),
                },
            ],
            deletions: seq![],
        }
    } else {
        Verdict {
            accept: true,
            reactions: seq![
                ChangeDescView::Slide {
                    id,
                    from: current.spec_cast(),
                    to: coord.spec_cast(),
                    duration: MOVE_SLIDE_NANOS,
                },
            ],
            deletions: seq![],
        }
    }
}

/// The rules for giving an entity the coordinate `coord`: a move attempt.
pub open spec fn verdict_move(
    id: EntityId,
    coord: Coord,
    store: &EntityStore,
    spatial: &SpatialHashTable,
) -> Verdict {
    if !spatial.spec_has_cell(coord) {
        Verdict::rejected()
    } else {
        let cell = spatial.spec_cell(coord);
        if store.door_opener@.contains(id) && bumped_door(store, cell) is Some {
            let (door_id, door) = bumped_door(store, cell)->0;
            Verdict {
                accept: false,
                reactions: seq![
                    ChangeDescView::Immediate(
                        EntityChange::Insert(
                            door_id,
                            ComponentValue::Door(DoorInfo { typ: door.typ, state: DoorState::Open }),
                        ),
                    ),
                ],
                deletions: seq![],
            }
        } else if store.collider@.contains(id) && cell.solid_count > 0 {
            Verdict::rejected()
        } else if store.coord@.contains_key(id) && store.coord@[id] != coord {
            verdict_step(id, store.coord@[id], coord, store, cell)
        } else {
            Verdict::accepted()
        }
    }
}

/// Whether an NPC or the player stands where the entity `id` is.
pub open spec fn doorway_occupied(id: EntityId, store: &EntityStore, spatial: &SpatialHashTable) -> bool {
    &&& store.coord@.contains_key(id)
    &&& spatial.spec_has_cell(store.coord@[id])
    &&& spatial.spec_cell(store.coord@[id]).spec_is_occupied()
}

/// The rules for giving the entity `id` the door `door`.
pub open spec fn verdict_door(
    id: EntityId,
    door: DoorInfo,
    store: &EntityStore,
    spatial: &SpatialHashTable,
) -> Verdict {
    match door.state {
        DoorState::Open => Verdict {
            accept: true,
            reactions: seq![
                ChangeDescView::Immediate(EntityChange::Remove(id, ComponentType::Solid)),
                ChangeDescView::Immediate(
                    EntityChange::Insert(id, ComponentValue::Opacity(OPACITY_CLEAR)),
                ),
                ChangeDescView::Sprites {
                    id,
                    animation: door.typ.spec_open_animation(),
                    then: EntityChange::Insert(
                        id,
                        ComponentValue::Sprite(door.typ.spec_open_sprite()),
                    ),
                },
            ],
            deletions: seq![],
        },
        DoorState::Closed => if doorway_occupied(id, store, spatial) {
            Verdict::rejected()
        } else {
            Verdict {
                accept: true,
                reactions: seq![
                    ChangeDescView::Immediate(EntityChange::Insert(id, ComponentValue::Solid)),
                    ChangeDescView::Sprites {
                        id,
                        animation: door.typ.spec_close_animation(),
                        then: EntityChange::Insert(id, ComponentValue::DoorClosingFinished),
                    },
                ],
                deletions: seq![],
            }
        },
    }
}

/// The rule for a door that has finished closing.
pub open spec fn verdict_door_closed(id: EntityId, store: &EntityStore) -> Verdict {
    let opaque = ChangeDescView::Immediate(
        EntityChange::Insert(id, ComponentValue::Opacity(OPACITY_FULL)),
    );
    Verdict {
        accept: true,
        reactions: if store.door@.contains_key(id) {
            seq![
                opaque,
                ChangeDescView::Immediate(
                    EntityChange::Insert(
                        id,
                        ComponentValue::Sprite(store.door@[id].typ.spec_closed_sprite()),
                    ),
                ),
            ]
        } else {
            seq![opaque]
        },
        deletions: seq![],
    }
}

/// The rule for giving the entity `id` the health `health`.
pub open spec fn verdict_health(id: EntityId, health: HealthInfo) -> Verdict {
    if health.current <= 0 {
        Verdict { accept: false, reactions: seq![], deletions: seq![id] }
    } else {
        Verdict::accepted()
    }
}

/// The outcome of judging `change` against the world.
pub open spec fn verdict(
    change: EntityChange,
    store: &EntityStore,
    spatial: &SpatialHashTable,
) -> Verdict {
    match change {
        EntityChange::Insert(id, ComponentValue::Coord(coord)) => verdict_move(
            id,
            coord,
            store,
            spatial,
        ),
        EntityChange::Insert(id, ComponentValue::Door(door)) => verdict_door(
            id,
            door,
            store,
            spatial,
        ),
        EntityChange::Insert(id, ComponentValue::DoorClosingFinished) => verdict_door_closed(
            id,
            store,
        ),
        EntityChange::Insert(id, ComponentValue::Health(health)) => verdict_health(id, health),
        _ => Verdict::accepted(),
    }
}

/// Appends `desc` to `reactions`.
fn react(reactions: &mut Vec<ChangeDesc>, desc: ChangeDesc)
    ensures
        descs_view(final(reactions)@) == descs_view(old(reactions)@).push(desc@),
{
    proof {
        lemma_descs_view_push(reactions@, desc);
    }
    reactions.push(desc);
}

/// Judges a move of the entity `id` to `coord`.
fn check_move(
    id: EntityId,
    coord: Coord,
    entity_store: &EntityStore,
    spatial_hash: &SpatialHashTable,
    reactions: &mut Vec<ChangeDesc>,
) -> (accept: bool)
    requires
        spatial_hash.wf(),
    ensures
        ({
            let v = verdict_move(id, coord, entity_store, spatial_hash);
            &&& accept == v.accept
            &&& descs_view(final(reactions)@) == descs_view(old(reactions)@) + v.reactions
        }),
{
    broadcast use vstd::std_specs::hash::group_hash_axioms;

    let sh_cell = match spatial_hash.get_signed(coord) {
        Some(sh_cell) => sh_cell,
        None => {
            assert(descs_view(reactions@) + Seq::<ChangeDescView>::empty() =~= descs_view(
                reactions@,
            ));
            return false;
        },
    };
    if entity_store.door_opener.contains(&id) {
        if let Some(door_id) = sh_cell.door_set.lowest() {
            if let Some(door_info) = entity_store.door.get(&door_id) {
                if door_info.state == DoorState::Closed {
                    let opened = DoorInfo::new(door_info.typ, DoorState::Open);
                    let desc = ChangeDesc::immediate(insert::door(door_id, opened));
                    react(reactions, desc);
                    assert(descs_view(old(reactions)@).push(desc@) =~= descs_view(old(reactions)@)
                        + seq![desc@]);
                    return false;
                }
            }
        }
    }
    assert(descs_view(reactions@) + Seq::<ChangeDescView>::empty() =~= descs_view(reactions@));
    if entity_store.collider.contains(&id) && sh_cell.solid_count > 0 {
        return false;
    }
    if let Some(current_coord) = entity_store.coord.get(&id) {
        let current_coord: Coord = *current_coord;
        if coord != current_coord {
            if entity_store.npc.contains(&id) && sh_cell.npc_count > 0 {
                return false;
            }
            if entity_store.bump_attack.contains(&id) {
                if let Some(attackable_id) = sh_cell.attackable_set.lowest() {
                    let mid_change = match entity_store.health.get(&attackable_id) {
                        Some(health) => Some(
                            insert::health(attackable_id, health.reduce(BUMP_ATTACK_DAMAGE)),
                        ),
                        None => None,
                    };
                    let desc = ChangeDesc::bump_slide(
                        id,
                        current_coord.cast(),
                        coord.cast(),
                        BUMP_SLIDE_NANOS,
                        BUMP_SLIDE_FRACTION,
                        mid_change,
                    );
                    react(reactions, desc);
                    assert(descs_view(old(reactions)@).push(desc@) =~= descs_view(old(reactions)@)
                        + seq![desc@]);
                    return false;
                }
            }
            let desc = ChangeDesc::slide(id, current_coord.cast(), coord.cast(), MOVE_SLIDE_NANOS);
            react(reactions, desc);
            assert(descs_view(old(reactions)@).push(desc@) =~= descs_view(old(reactions)@) + seq![
                desc@,
            ]);
        }
    }
    true
}

/// Judges giving the entity `id` the door `door_info`.
fn check_door(
    id: EntityId,
    door_info: DoorInfo,
    entity_store: &EntityStore,
    spatial_hash: &SpatialHashTable,
    reactions: &mut Vec<ChangeDesc>,
) -> (accept: bool)
    requires
        spatial_hash.wf(),
    ensures
        ({
            let v = verdict_door(id, door_info, entity_store, spatial_hash);
            &&& accept == v.accept
            &&& descs_view(final(reactions)@) == descs_view(old(reactions)@) + v.reactions
        }),
{
    broadcast use vstd::std_specs::hash::group_hash_axioms;

    match door_info.state {
        DoorState::Open => {
            let unblock = ChangeDesc::immediate(remove::solid(id));
            let clear = ChangeDesc::immediate(insert::opacity(id, OPACITY_CLEAR));
            let swing = ChangeDesc::sprites(
                id,
                door_info.typ.open_animation(),
                insert::sprite(id, door_info.typ.open_sprite()),
            );
            react(reactions, unblock);
            react(reactions, clear);
            react(reactions, swing);
            assert(descs_view(old(reactions)@).push(unblock@).push(clear@).push(swing@)
                =~= descs_view(old(reactions)@) + seq![unblock@, clear@, swing@]);
        },
        DoorState::Closed => {
            if let Some(coord) = entity_store.coord.get(&id) {
                if let Some(sh_cell) = spatial_hash.get_signed(*coord) {
                    if sh_cell.is_occupied() {
                        assert(descs_view(reactions@) + Seq::<ChangeDescView>::empty()
                            =~= descs_view(reactions@));
                        return false;
                    }
                }
            }
            let block = ChangeDesc::immediate(insert::solid(id));
            let swing = ChangeDesc::sprites(
                id,
                door_info.typ.close_animation(),
                insert::door_closing_finished(id),
            );
            react(reactions, block);
            react(reactions, swing);
            assert(descs_view(old(reactions)@).push(block@).push(swing@) =~= descs_view(
                old(reactions)@,
            ) + seq![block@, swing@]);
        },
    }
    true
}

/// Judges the end of a door's closing.
fn check_door_closed(id: EntityId, entity_store: &EntityStore, reactions: &mut Vec<ChangeDesc>)
    ensures
        descs_view(final(reactions)@) == descs_view(old(reactions)@) + verdict_door_closed(
            id,
            entity_store,
        ).reactions,
{
    broadcast use vstd::std_specs::hash::group_hash_axioms;

    let opaque = ChangeDesc::immediate(insert::opacity(id, OPACITY_FULL));
    react(reactions, opaque);
    if let Some(door_info) = entity_store.door.get(&id) {
        let shut = ChangeDesc::immediate(insert::sprite(id, door_info.typ.closed_sprite()));
        react(reactions, shut);
        assert(descs_view(old(reactions)@).push(opaque@).push(shut@) =~= descs_view(
            old(reactions)@,
        ) + seq![opaque@, shut@]);
    } else {
        assert(descs_view(old(reactions)@).push(opaque@) =~= descs_view(old(reactions)@) + seq![
            opaque@,
        ]);
    }
}

/// Judges one proposed change against the world.
///
/// Returns whether the change may be applied.  Reactions are appended to
/// `reactions` in the order of the rules, and entities to delete to
/// `to_delete`; what these held before stays in front.
pub fn check(
    change: &EntityChange,
    entity_store: &EntityStore,
    spatial_hash: &SpatialHashTable,
    reactions: &mut Vec<ChangeDesc>,
    to_delete: &mut Vec<EntityId>,
) -> (accept: bool)
    requires
        spatial_hash.wf(),
    ensures
        ({
            let v = verdict(*change, entity_store, spatial_hash);
            &&& accept == v.accept
            &&& descs_view(final(reactions)@) == descs_view(old(reactions)@) + v.reactions
            &&& final(to_delete)@ == old(to_delete)@ + v.deletions
        }),
{
    proof {
        assert(descs_view(reactions@) + Seq::<ChangeDescView>::empty() =~= descs_view(reactions@));
        assert(to_delete@ + Seq::<EntityId>::empty() =~= to_delete@);
    }
    match *change {
        EntityChange::Insert(id, ComponentValue::Coord(coord)) => check_move(
            id,
            coord,
            entity_store,
            spatial_hash,
            reactions,
        ),
        EntityChange::Insert(id, ComponentValue::Door(door_info)) => check_door(
            id,
            door_info,
            entity_store,
            spatial_hash,
            reactions,
        ),
        EntityChange::Insert(id, ComponentValue::DoorClosingFinished) => {
            check_door_closed(id, entity_store, reactions);
            true
        },
        EntityChange::Insert(id, ComponentValue::Health(info)) => {
            if info.current <= 0 {
                to_delete.push(id);
                assert(to_delete@ =~= old(to_delete)@ + seq![id]);
                false
            } else {
                true
            }
        },
        _ => true,
    }
}

/// A move to a coordinate that has no cell is rejected and sets nothing
/// off, wherever the entity stands.
pub proof fn lemma_move_off_world_rejected(
    id: EntityId,
    coord: Coord,
    store: &EntityStore,
    spatial: &SpatialHashTable,
)
    requires
        !spatial.spec_has_cell(coord),
    ensures
        verdict(EntityChange::Insert(id, ComponentValue::Coord(coord)), store, spatial)
            == Verdict::rejected(),
{
}

/// A collider that moves to a cell with something solid in it is rejected,
/// whatever else it is.  Unless it is a door opener that bumps into a closed
/// door there, the move sets nothing off.
pub proof fn lemma_collider_blocked_by_solid(
    id: EntityId,
    coord: Coord,
    store: &EntityStore,
    spatial: &SpatialHashTable,
)
    requires
        spatial.spec_has_cell(coord),
        store.collider@.contains(id),
        spatial.spec_cell(coord).solid_count > 0,
    ensures
        !verdict(EntityChange::Insert(id, ComponentValue::Coord(coord)), store, spatial).accept,
        !(store.door_opener@.contains(id) && bumped_door(store, spatial.spec_cell(coord)) is Some)
            ==> verdict(EntityChange::Insert(id, ComponentValue::Coord(coord)), store, spatial)
            == Verdict::rejected(),
{
}

/// A door opener that moves to a cell whose lowest door is closed opens
/// that door instead of moving, even where it is a collider and the cell
/// holds something solid.
pub proof fn lemma_door_opener_opens_closed_door(
    id: EntityId,
    coord: Coord,
    store: &EntityStore,
    spatial: &SpatialHashTable,
)
    requires
        spatial.spec_has_cell(coord),
        store.door_opener@.contains(id),
        bumped_door(store, spatial.spec_cell(coord)) is Some,
    ensures
        ({
            let v = verdict(EntityChange::Insert(id, ComponentValue::Coord(coord)), store, spatial);
            let (door_id, door) = bumped_door(store, spatial.spec_cell(coord))->0;
            &&& !v.accept
            &&& v.reactions == seq![
                ChangeDescView::Immediate(
                    EntityChange::Insert(
                        door_id,
                        ComponentValue::Door(DoorInfo { typ: door.typ, state: DoorState::Open }),
                    ),
                ),
            ]
            &&& v.deletions == Seq::<EntityId>::empty()
        }),
{
}

/// A bump attacker that steps to another cell with something attackable
/// in it is never accepted there.
pub proof fn lemma_bump_attacker_never_enters(
    id: EntityId,
    coord: Coord,
    store: &EntityStore,
    spatial: &SpatialHashTable,
)
    requires
        spatial.spec_has_cell(coord),
        store.bump_attack@.contains(id),
        spatial.spec_cell(coord).attackable_set@ != Set::<EntityId>::empty(),
        store.coord@.contains_key(id),
        store.coord@[id] != coord,
    ensures
        !verdict(EntityChange::Insert(id, ComponentValue::Coord(coord)), store, spatial).accept,
{
    lemma_lowest_of_inhabited(spatial.spec_cell(coord).attackable_set);
}

/// A bump attacker that steps to another cell with something attackable
/// in it, and that no earlier rule stops, sets off exactly one lunge.  Its
/// change at the turn gives the lowest attackable entity of the cell its
/// health less the damage of one attack; a target without health is left
/// alone.
pub proof fn lemma_bump_attack_reaction(
    id: EntityId,
    coord: Coord,
    store: &EntityStore,
    spatial: &SpatialHashTable,
)
    requires
        spatial.spec_has_cell(coord),
        store.bump_attack@.contains(id),
        spatial.spec_cell(coord).attackable_set@ != Set::<EntityId>::empty(),
        store.coord@.contains_key(id),
        store.coord@[id] != coord,
        !(store.door_opener@.contains(id) && bumped_door(store, spatial.spec_cell(coord)) is Some),
        !(store.collider@.contains(id) && spatial.spec_cell(coord).solid_count > 0),
        !(store.npc@.contains(id) && spatial.spec_cell(coord).npc_count > 0),
    ensures
        ({
            let v = verdict(EntityChange::Insert(id, ComponentValue::Coord(coord)), store, spatial);
            let target = lowest_of(spatial.spec_cell(coord).attackable_set@)->0;
            &&& !v.accept
            &&& v.deletions == Seq::<EntityId>::empty()
            &&& spatial.spec_cell(coord).attackable_set@.contains(target)
            &&& v.reactions == seq![
                ChangeDescView::BumpSlide {
                    id,
                    from: store.coord@[id].spec_cast(),
                    to: coord.spec_cast(),
                    duration: BUMP_SLIDE_NANOS,
                    fraction: BUMP_SLIDE_FRACTION,
                    mid_change: bump_damage(store, target),
                },
            ]
            &&& store.health@.contains_key(target) && store.health@[target].current > i32::MIN
                ==> bump_damage(store, target) == Some(
                EntityChange::Insert(
                    target,
                    ComponentValue::Health(
                        HealthInfo {
                            current: (store.health@[target].current - BUMP_ATTACK_DAMAGE) as i32,
                            max: store.health@[target].max,
                        },
                    ),
                ),
            )
        }),
{
    lemma_lowest_of_inhabited(spatial.spec_cell(coord).attackable_set);
}

/// Health that is not positive is never given to an entity: the change is
/// rejected, sets nothing off, and asks for the entity to be deleted, once.
/// The health that the entity had before plays no part.
pub proof fn lemma_dead_health_deletes(
    id: EntityId,
    health: HealthInfo,
    store: &EntityStore,
    spatial: &SpatialHashTable,
)
    requires
        health.current <= 0,
    ensures
        verdict(EntityChange::Insert(id, ComponentValue::Health(health)), store, spatial) == (Verdict {
            accept: false,
            reactions: seq![],
            deletions: seq![id],
        }),
{
}

/// A door is closed exactly when neither an NPC nor the player stands in
/// its cell.
pub proof fn lemma_door_closes_iff_vacant(
    id: EntityId,
    door: DoorInfo,
    store: &EntityStore,
    spatial: &SpatialHashTable,
)
    requires
        door.state == DoorState::Closed,
    ensures
        verdict(EntityChange::Insert(id, ComponentValue::Door(door)), store, spatial).accept
            <==> !doorway_occupied(id, store, spatial),
        doorway_occupied(id, store, spatial) ==> verdict(
            EntityChange::Insert(id, ComponentValue::Door(door)),
            store,
            spatial,
        ) == Verdict::rejected(),
{
}

/// Closing a door is rejected in a world where its cell is occupied, and
/// the same change is accepted in a world where the cell has been vacated.
pub proof fn lemma_door_closes_once_vacated(
    id: EntityId,
    door: DoorInfo,
    store_before: &EntityStore,
    spatial_before: &SpatialHashTable,
    store_after: &EntityStore,
    spatial_after: &SpatialHashTable,
)
    requires
        door.state == DoorState::Closed,
        doorway_occupied(id, store_before, spatial_before),
        !doorway_occupied(id, store_after, spatial_after),
    ensures
        !verdict(
            EntityChange::Insert(id, ComponentValue::Door(door)),
            store_before,
            spatial_before,
        ).accept,
        verdict(EntityChange::Insert(id, ComponentValue::Door(door)), store_after, spatial_after).accept,
{
}

} // verus!
