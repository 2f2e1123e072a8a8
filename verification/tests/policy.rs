use reaction_pipeline::content::change_desc::ChangeDesc;
use reaction_pipeline::content::door::{DoorInfo, DoorState, DoorType};
use reaction_pipeline::content::health::HealthInfo;
use reaction_pipeline::content::sprite::{SpriteFrame, TileSprite};
use reaction_pipeline::coord::Coord;
use reaction_pipeline::entity_store::{insert, remove, EntityChange, EntityId, EntityStore};
use reaction_pipeline::policy::check;
use reaction_pipeline::spatial_hash::{SpatialHashCell, SpatialHashTable};

const MOVER: EntityId = 1;

struct World {
    store: EntityStore,
    spatial: SpatialHashTable,
}

fn world() -> World {
    let mut store = EntityStore::new();
    store.coord.insert(MOVER, Coord::new(1, 1));
    World { store, spatial: SpatialHashTable::new(4, 4) }
}

fn judge(world: &World, change: EntityChange) -> (bool, Vec<ChangeDesc>, Vec<EntityId>) {
    let mut reactions = Vec::new();
    let mut to_delete = Vec::new();
    let accept = check(&change, &world.store, &world.spatial, &mut reactions, &mut to_delete);
    (accept, reactions, to_delete)
}

fn cell_with(solid: usize, npc: usize, player: usize, doors: &[EntityId], attackable: &[EntityId]) -> SpatialHashCell {
    let mut cell = SpatialHashCell::new();
    cell.solid_count = solid;
    cell.npc_count = npc;
    cell.player_count = player;
    for id in doors {
        cell.door_set.insert(*id);
    }
    for id in attackable {
        cell.attackable_set.insert(*id);
    }
    cell
}

#[test]
fn move_off_world_is_rejected_without_reactions() {
    let w = world();
    for target in [Coord::new(-1, 1), Coord::new(4, 0), Coord::new(0, 4), Coord::new(1, -7)] {
        let (accept, reactions, to_delete) = judge(&w, insert::coord(MOVER, target));
        assert!(!accept);
        assert!(reactions.is_empty());
        assert!(to_delete.is_empty());
    }
}

#[test]
fn plain_move_is_accepted_with_slide() {
    let w = world();
    let (accept, reactions, to_delete) = judge(&w, insert::coord(MOVER, Coord::new(2, 1)));
    assert!(accept);
    assert_eq!(
        reactions,
        vec![ChangeDesc::slide(
            MOVER,
            Coord::new(1, 1).cast(),
            Coord::new(2, 1).cast(),
            50_000_000
        )]
    );
    assert!(to_delete.is_empty());
}

#[test]
fn move_to_own_cell_sets_nothing_off() {
    let w = world();
    let (accept, reactions, to_delete) = judge(&w, insert::coord(MOVER, Coord::new(1, 1)));
    assert!(accept);
    assert!(reactions.is_empty());
    assert!(to_delete.is_empty());
}

#[test]
fn first_coordinate_of_an_entity_is_accepted() {
    let w = world();
    let (accept, reactions, _) = judge(&w, insert::coord(99, Coord::new(3, 3)));
    assert!(accept);
    assert!(reactions.is_empty());
}

#[test]
fn collider_is_blocked_by_solid_cell() {
    let mut w = world();
    w.store.collider.insert(MOVER);
    w.store.bump_attack.insert(MOVER);
    w.store.npc.insert(MOVER);
    assert!(w.spatial.set_signed(Coord::new(2, 1), cell_with(1, 0, 0, &[], &[5])));
    let (accept, reactions, to_delete) = judge(&w, insert::coord(MOVER, Coord::new(2, 1)));
    assert!(!accept);
    assert!(reactions.is_empty());
    assert!(to_delete.is_empty());
}

#[test]
fn non_collider_walks_into_solid_cell() {
    let mut w = world();
    assert!(w.spatial.set_signed(Coord::new(2, 1), cell_with(3, 0, 0, &[], &[])));
    let (accept, reactions, _) = judge(&w, insert::coord(MOVER, Coord::new(2, 1)));
    assert!(accept);
    assert_eq!(reactions.len(), 1);
}

#[test]
fn door_opener_opens_closed_door_before_collision() {
    let mut w = world();
    w.store.collider.insert(MOVER);
    w.store.door_opener.insert(MOVER);
    w.store.door.insert(7, DoorInfo::new(DoorType::Outer, DoorState::Closed));
    assert!(w.spatial.set_signed(Coord::new(1, 2), cell_with(1, 0, 0, &[7], &[])));
    let (accept, reactions, to_delete) = judge(&w, insert::coord(MOVER, Coord::new(1, 2)));
    assert!(!accept);
    assert_eq!(
        reactions,
        vec![ChangeDesc::immediate(insert::door(
            7,
            DoorInfo::new(DoorType::Outer, DoorState::Open)
        ))]
    );
    assert!(to_delete.is_empty());
}

#[test]
fn door_opener_passes_open_door() {
    let mut w = world();
    w.store.door_opener.insert(MOVER);
    w.store.door.insert(7, DoorInfo::new(DoorType::Inner, DoorState::Open));
    assert!(w.spatial.set_signed(Coord::new(1, 2), cell_with(0, 0, 0, &[7], &[])));
    let (accept, reactions, _) = judge(&w, insert::coord(MOVER, Coord::new(1, 2)));
    assert!(accept);
    assert_eq!(
        reactions,
        vec![ChangeDesc::slide(
            MOVER,
            Coord::new(1, 1).cast(),
            Coord::new(1, 2).cast(),
            50_000_000
        )]
    );
}

#[test]
fn only_the_lowest_door_of_a_cell_is_looked_at() {
    let mut w = world();
    w.store.door_opener.insert(MOVER);
    w.store.door.insert(9, DoorInfo::new(DoorType::Inner, DoorState::Closed));
    w.store.door.insert(4, DoorInfo::new(DoorType::Outer, DoorState::Open));
    assert!(w.spatial.set_signed(Coord::new(1, 2), cell_with(0, 0, 0, &[9, 4], &[])));
    let (accept, reactions, _) = judge(&w, insert::coord(MOVER, Coord::new(1, 2)));
    assert!(accept);
    assert_eq!(reactions.len(), 1);
    w.store.door.insert(4, DoorInfo::new(DoorType::Outer, DoorState::Closed));
    let (accept, reactions, _) = judge(&w, insert::coord(MOVER, Coord::new(1, 2)));
    assert!(!accept);
    assert_eq!(
        reactions,
        vec![ChangeDesc::immediate(insert::door(
            4,
            DoorInfo::new(DoorType::Outer, DoorState::Open)
        ))]
    );
}

#[test]
fn door_unknown_to_the_store_is_skipped() {
    let mut w = world();
    w.store.door_opener.insert(MOVER);
    assert!(w.spatial.set_signed(Coord::new(1, 2), cell_with(0, 0, 0, &[7], &[])));
    let (accept, reactions, _) = judge(&w, insert::coord(MOVER, Coord::new(1, 2)));
    assert!(accept);
    assert_eq!(reactions.len(), 1);
}

#[test]
fn npc_does_not_stack_on_npc() {
    let mut w = world();
    w.store.npc.insert(MOVER);
    w.store.bump_attack.insert(MOVER);
    assert!(w.spatial.set_signed(Coord::new(0, 1), cell_with(0, 1, 0, &[], &[3])));
    let (accept, reactions, to_delete) = judge(&w, insert::coord(MOVER, Coord::new(0, 1)));
    assert!(!accept);
    assert!(reactions.is_empty());
    assert!(to_delete.is_empty());
}

#[test]
fn bump_attack_lunges_and_reduces_health_by_one() {
    let mut w = world();
    w.store.bump_attack.insert(MOVER);
    w.store.health.insert(3, HealthInfo::new(5, 8));
    w.store.health.insert(6, HealthInfo::new(2, 2));
    assert!(w.spatial.set_signed(Coord::new(0, 1), cell_with(0, 0, 0, &[], &[6, 3])));
    let (accept, reactions, to_delete) = judge(&w, insert::coord(MOVER, Coord::new(0, 1)));
    assert!(!accept);
    assert_eq!(
        reactions,
        vec![ChangeDesc::bump_slide(
            MOVER,
            Coord::new(1, 1).cast(),
            Coord::new(0, 1).cast(),
            100_000_000,
            490,
            Some(insert::health(3, HealthInfo::new(4, 8)))
        )]
    );
    assert!(to_delete.is_empty());
}

#[test]
fn bump_attack_on_target_without_health_has_no_mid_change() {
    let mut w = world();
    w.store.bump_attack.insert(MOVER);
    assert!(w.spatial.set_signed(Coord::new(0, 1), cell_with(0, 0, 0, &[], &[3])));
    let (accept, reactions, _) = judge(&w, insert::coord(MOVER, Coord::new(0, 1)));
    assert!(!accept);
    assert_eq!(
        reactions,
        vec![ChangeDesc::bump_slide(
            MOVER,
            Coord::new(1, 1).cast(),
            Coord::new(0, 1).cast(),
            100_000_000,
            490,
            None
        )]
    );
}

#[test]
fn opening_a_door_clears_it_and_plays_the_animation() {
    let w = world();
    let (accept, reactions, to_delete) =
        judge(&w, insert::door(7, DoorInfo::new(DoorType::Inner, DoorState::Open)));
    assert!(accept);
    assert_eq!(
        reactions,
        vec![
            ChangeDesc::immediate(remove::solid(7)),
            ChangeDesc::immediate(insert::opacity(7, 0)),
            ChangeDesc::sprites(
                7,
                vec![
                    SpriteFrame::new(50, TileSprite::InnerDoor),
                    SpriteFrame::new(50, TileSprite::InnerDoorOpen)
                ],
                insert::sprite(7, TileSprite::InnerDoorOpen)
            ),
        ]
    );
    assert!(to_delete.is_empty());
}

#[test]
fn closing_a_door_is_rejected_while_occupied_and_accepted_once_vacated() {
    let mut w = world();
    w.store.coord.insert(7, Coord::new(2, 2));
    let close = insert::door(7, DoorInfo::new(DoorType::Outer, DoorState::Closed));

    assert!(w.spatial.set_signed(Coord::new(2, 2), cell_with(0, 1, 0, &[7], &[])));
    let (accept, reactions, to_delete) = judge(&w, close);
    assert!(!accept);
    assert!(reactions.is_empty());
    assert!(to_delete.is_empty());

    assert!(w.spatial.set_signed(Coord::new(2, 2), cell_with(0, 0, 1, &[7], &[])));
    let (accept, reactions, _) = judge(&w, close);
    assert!(!accept);
    assert!(reactions.is_empty());

    assert!(w.spatial.set_signed(Coord::new(2, 2), cell_with(0, 0, 0, &[7], &[])));
    let (accept, reactions, to_delete) = judge(&w, close);
    assert!(accept);
    assert_eq!(
        reactions,
        vec![
            ChangeDesc::immediate(insert::solid(7)),
            ChangeDesc::sprites(
                7,
                vec![
                    SpriteFrame::new(50, TileSprite::OuterDoorOpen),
                    SpriteFrame::new(50, TileSprite::OuterDoor)
                ],
                insert::door_closing_finished(7)
            ),
        ]
    );
    assert!(to_delete.is_empty());
}

#[test]
fn closing_a_door_without_coordinate_is_accepted() {
    let w = world();
    let (accept, reactions, _) =
        judge(&w, insert::door(7, DoorInfo::new(DoorType::Inner, DoorState::Closed)));
    assert!(accept);
    assert_eq!(reactions.len(), 2);
}

#[test]
fn door_closing_finished_restores_opacity_and_sprite() {
    let mut w = world();
    w.store.door.insert(7, DoorInfo::new(DoorType::Outer, DoorState::Closed));
    let (accept, reactions, to_delete) = judge(&w, insert::door_closing_finished(7));
    assert!(accept);
    assert_eq!(
        reactions,
        vec![
            ChangeDesc::immediate(insert::opacity(7, 1000)),
            ChangeDesc::immediate(insert::sprite(7, TileSprite::OuterDoor)),
        ]
    );
    assert!(to_delete.is_empty());
}

#[test]
fn door_closing_finished_without_door_only_restores_opacity() {
    let w = world();
    let (accept, reactions, _) = judge(&w, insert::door_closing_finished(7));
    assert!(accept);
    assert_eq!(reactions, vec![ChangeDesc::immediate(insert::opacity(7, 1000))]);
}

#[test]
fn dead_health_is_rejected_and_queues_one_deletion() {
    let mut w = world();
    for prior in [None, Some(HealthInfo::new(9, 9)), Some(HealthInfo::new(-4, 9))] {
        if let Some(prior) = prior {
            w.store.health.insert(3, prior);
        }
        for current in [0, -1, i32::MIN] {
            let (accept, reactions, to_delete) =
                judge(&w, insert::health(3, HealthInfo::new(current, 9)));
            assert!(!accept);
            assert!(reactions.is_empty());
            assert_eq!(to_delete, vec![3]);
        }
    }
}

#[test]
fn positive_health_is_accepted() {
    let w = world();
    let (accept, reactions, to_delete) = judge(&w, insert::health(3, HealthInfo::new(1, 9)));
    assert!(accept);
    assert!(reactions.is_empty());
    assert!(to_delete.is_empty());
}

#[test]
fn other_changes_are_accepted_without_reactions() {
    let w = world();
    for change in [
        insert::solid(1),
        remove::solid(1),
        insert::opacity(1, 500),
        insert::sprite(1, TileSprite::Crab),
        insert::npc(1),
        insert::position(1, Coord::new(9, 9).cast()),
    ] {
        let (accept, reactions, to_delete) = judge(&w, change);
        assert!(accept);
        assert!(reactions.is_empty());
        assert!(to_delete.is_empty());
    }
}

#[test]
fn check_appends_after_what_the_lists_hold() {
    let w = world();
    let mut reactions = vec![ChangeDesc::immediate(insert::solid(42))];
    let mut to_delete = vec![42];
    let accept = check(
        &insert::health(3, HealthInfo::new(0, 1)),
        &w.store,
        &w.spatial,
        &mut reactions,
        &mut to_delete,
    );
    assert!(!accept);
    assert_eq!(reactions, vec![ChangeDesc::immediate(insert::solid(42))]);
    assert_eq!(to_delete, vec![42, 3]);
}
