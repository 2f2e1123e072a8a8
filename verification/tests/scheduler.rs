use reaction_pipeline::content::animation::{AnimatedChange, Animation};
use reaction_pipeline::content::change_desc::ChangeDesc;
use reaction_pipeline::content::door::{DoorInfo, DoorState, DoorType};
use reaction_pipeline::content::health::HealthInfo;
use reaction_pipeline::content::sprite::{SpriteFrame, TileSprite};
use reaction_pipeline::coord::{Coord, Position};
use reaction_pipeline::entity_store::{insert, remove, EntityStore};
use reaction_pipeline::scheduler::{partition, Scheduler};
use reaction_pipeline::spatial_hash::{SpatialHashCell, SpatialHashTable};

const MILLIS: u64 = 1_000_000;

fn slide_to(id: u64, x: i64, duration: u64) -> ChangeDesc {
    ChangeDesc::slide(id, Position::new(0, 0), Position::new(x, 0), duration)
}

#[test]
fn new_scheduler_is_empty() {
    let scheduler = Scheduler::new();
    assert_eq!(scheduler.len(), 0);
    assert!(!scheduler.is_animating(1));
    assert!(scheduler.get(1).is_none());
}

#[test]
fn immediate_descriptor_is_applied_and_not_scheduled() {
    let mut scheduler = Scheduler::new();
    let mut changes = Vec::new();
    scheduler.schedule(ChangeDesc::immediate(insert::solid(4)), &mut changes);
    assert_eq!(changes, vec![AnimatedChange::Unchecked(insert::solid(4))]);
    assert_eq!(scheduler.len(), 0);
}

#[test]
fn immediate_descriptor_leaves_live_animation_alone() {
    let mut scheduler = Scheduler::new();
    let mut changes = Vec::new();
    scheduler.schedule(slide_to(4, 1000, 50 * MILLIS), &mut changes);
    scheduler.schedule(ChangeDesc::immediate(insert::solid(4)), &mut changes);
    assert!(scheduler.is_animating(4));
}

#[test]
fn slide_descriptor_starts_at_zero_progress() {
    let mut scheduler = Scheduler::new();
    let mut changes = Vec::new();
    scheduler.schedule(
        ChangeDesc::slide(4, Position::new(1000, 2000), Position::new(3000, 1000), 50 * MILLIS),
        &mut changes,
    );
    assert!(changes.is_empty());
    assert_eq!(
        scheduler.get(4),
        Some(&Animation::Slide {
            id: 4,
            base: Position::new(1000, 2000),
            path: Position::new(2000, -1000),
            progress: 0,
            duration: 50 * MILLIS,
        })
    );
}

#[test]
fn sprites_descriptor_starts_at_first_frame() {
    let mut scheduler = Scheduler::new();
    let mut changes = Vec::new();
    let frames = vec![SpriteFrame::new(100, TileSprite::Crab), SpriteFrame::new(50, TileSprite::Snail)];
    scheduler.schedule(ChangeDesc::sprites(4, frames.clone(), insert::solid(4)), &mut changes);
    assert!(changes.is_empty());
    assert_eq!(
        scheduler.get(4),
        Some(&Animation::Sprites {
            id: 4,
            animation: frames,
            then: insert::solid(4),
            index: 0,
            remaining: 100 * MILLIS,
        })
    );
}

#[test]
fn bump_slide_descriptor_covers_its_fraction_of_the_way() {
    let mut scheduler = Scheduler::new();
    let mut changes = Vec::new();
    let mid = insert::health(9, HealthInfo::new(1, 2));
    scheduler.schedule(
        ChangeDesc::bump_slide(
            4,
            Position::new(1000, 1000),
            Position::new(0, 2000),
            100 * MILLIS,
            490,
            Some(mid),
        ),
        &mut changes,
    );
    assert!(changes.is_empty());
    assert_eq!(
        scheduler.get(4),
        Some(&Animation::BumpSlide {
            id: 4,
            base: Position::new(1000, 1000),
            path: Position::new(-490, 490),
            progress: 0,
            duration: 100 * MILLIS,
            mid_change: Some(mid),
        })
    );
}

#[test]
fn later_descriptor_replaces_live_animation_and_its_progress() {
    let mut scheduler = Scheduler::new();
    let mut changes = Vec::new();
    scheduler.schedule(slide_to(4, 1000, 50 * MILLIS), &mut changes);
    scheduler.schedule(slide_to(5, 7000, 50 * MILLIS), &mut changes);
    scheduler.tick(30 * MILLIS, &mut changes);
    assert_eq!(scheduler.len(), 2);

    let mut fresh = Scheduler::new();
    let mut fresh_changes = Vec::new();
    scheduler.schedule(slide_to(4, -2000, 80 * MILLIS), &mut changes);
    fresh.schedule(slide_to(4, -2000, 80 * MILLIS), &mut fresh_changes);
    assert_eq!(scheduler.len(), 2);
    assert_eq!(scheduler.get(4), fresh.get(4));
    assert_eq!(
        scheduler.get(4),
        Some(&Animation::Slide {
            id: 4,
            base: Position::new(0, 0),
            path: Position::new(-2000, 0),
            progress: 0,
            duration: 80 * MILLIS,
        })
    );

    let mut changes = Vec::new();
    scheduler.tick(40 * MILLIS, &mut changes);
    assert_eq!(
        changes,
        vec![
            AnimatedChange::Unchecked(insert::position(5, Position::new(7000, 0))),
            AnimatedChange::Unchecked(insert::position(4, Position::new(-1000, 0))),
        ]
    );
    assert_eq!(scheduler.len(), 1);
    assert!(scheduler.is_animating(4));
    assert!(!scheduler.is_animating(5));
}

#[test]
fn degenerate_descriptors_settle_at_once_and_still_supersede() {
    let mut scheduler = Scheduler::new();
    let mut changes = Vec::new();
    scheduler.schedule(slide_to(4, 1000, 50 * MILLIS), &mut changes);
    scheduler.schedule(slide_to(4, 3000, 0), &mut changes);
    assert_eq!(
        changes,
        vec![AnimatedChange::Unchecked(insert::position(4, Position::new(3000, 0)))]
    );
    assert_eq!(scheduler.len(), 0);

    let mut changes = Vec::new();
    scheduler.schedule(
        ChangeDesc::slide(4, Position::new(i64::MIN, 0), Position::new(1, 5), 10),
        &mut changes,
    );
    assert_eq!(
        changes,
        vec![AnimatedChange::Unchecked(insert::position(4, Position::new(1, 5)))]
    );

    let mut changes = Vec::new();
    scheduler.schedule(ChangeDesc::sprites(4, Vec::new(), insert::solid(4)), &mut changes);
    assert_eq!(changes, vec![AnimatedChange::Checked(insert::solid(4))]);

    let mut changes = Vec::new();
    scheduler.schedule(
        ChangeDesc::bump_slide(
            4,
            Position::new(0, 0),
            Position::new(1000, 0),
            10,
            1001,
            Some(insert::solid(9)),
        ),
        &mut changes,
    );
    assert_eq!(changes, vec![AnimatedChange::Checked(insert::solid(9))]);
    assert_eq!(scheduler.len(), 0);
}

#[test]
fn tick_advances_all_by_the_same_time_in_order() {
    let mut scheduler = Scheduler::new();
    let mut changes = Vec::new();
    scheduler.schedule(slide_to(1, 1000, 100 * MILLIS), &mut changes);
    scheduler.schedule(
        ChangeDesc::sprites(
            2,
            vec![SpriteFrame::new(10, TileSprite::Crab), SpriteFrame::new(50, TileSprite::Snail)],
            insert::solid(2),
        ),
        &mut changes,
    );
    scheduler.schedule(slide_to(3, 2000, 20 * MILLIS), &mut changes);
    scheduler.tick(20 * MILLIS, &mut changes);
    assert_eq!(
        changes,
        vec![
            AnimatedChange::Unchecked(insert::position(1, Position::new(200, 0))),
            AnimatedChange::Unchecked(insert::sprite(2, TileSprite::Snail)),
            AnimatedChange::Unchecked(insert::position(3, Position::new(2000, 0))),
        ]
    );
    assert_eq!(scheduler.len(), 2);
    assert!(scheduler.is_animating(1));
    assert!(scheduler.is_animating(2));
    assert!(!scheduler.is_animating(3));

    let mut changes = Vec::new();
    scheduler.tick(40 * MILLIS, &mut changes);
    assert_eq!(
        changes,
        vec![
            AnimatedChange::Unchecked(insert::position(1, Position::new(600, 0))),
            AnimatedChange::Checked(insert::solid(2)),
        ]
    );
    assert_eq!(scheduler.len(), 1);
}

#[test]
fn partition_keeps_order_within_each_part() {
    let changes = vec![
        AnimatedChange::Unchecked(insert::solid(1)),
        AnimatedChange::Checked(insert::solid(2)),
        AnimatedChange::Checked(remove::solid(3)),
        AnimatedChange::Unchecked(insert::npc(4)),
    ];
    let (unchecked, checked) = partition(&changes);
    assert_eq!(unchecked, vec![insert::solid(1), insert::npc(4)]);
    assert_eq!(checked, vec![insert::solid(2), remove::solid(3)]);
}

#[test]
fn adjudicate_accepted_move_applies_it_and_starts_the_slide() {
    let mut store = EntityStore::new();
    store.coord.insert(1, Coord::new(1, 1));
    let spatial = SpatialHashTable::new(3, 3);
    let mut scheduler = Scheduler::new();
    let mut changes = Vec::new();
    let mut to_delete = Vec::new();
    let change = insert::coord(1, Coord::new(1, 2));
    let accept = scheduler.adjudicate(change, &store, &spatial, &mut changes, &mut to_delete);
    assert!(accept);
    assert_eq!(changes, vec![AnimatedChange::Unchecked(change)]);
    assert!(to_delete.is_empty());
    assert_eq!(
        scheduler.get(1),
        Some(&Animation::Slide {
            id: 1,
            base: Position::new(1000, 1000),
            path: Position::new(0, 1000),
            progress: 0,
            duration: 50 * MILLIS,
        })
    );
}

#[test]
fn adjudicate_door_opening_hands_out_immediate_changes_in_order() {
    let store = EntityStore::new();
    let spatial = SpatialHashTable::new(3, 3);
    let mut scheduler = Scheduler::new();
    let mut changes = Vec::new();
    let mut to_delete = Vec::new();
    let change = insert::door(7, DoorInfo::new(DoorType::Inner, DoorState::Open));
    let accept = scheduler.adjudicate(change, &store, &spatial, &mut changes, &mut to_delete);
    assert!(accept);
    assert_eq!(
        changes,
        vec![
            AnimatedChange::Unchecked(change),
            AnimatedChange::Unchecked(remove::solid(7)),
            AnimatedChange::Unchecked(insert::opacity(7, 0)),
        ]
    );
    assert!(scheduler.is_animating(7));

    let mut changes = Vec::new();
    scheduler.tick(50 * MILLIS, &mut changes);
    assert_eq!(
        changes,
        vec![AnimatedChange::Unchecked(insert::sprite(7, TileSprite::InnerDoorOpen))]
    );
    let mut changes = Vec::new();
    scheduler.tick(50 * MILLIS, &mut changes);
    assert_eq!(
        changes,
        vec![AnimatedChange::Checked(insert::sprite(7, TileSprite::InnerDoorOpen))]
    );
    assert_eq!(scheduler.len(), 0);
}

#[test]
fn adjudicate_rejected_change_is_not_applied() {
    let mut store = EntityStore::new();
    store.coord.insert(1, Coord::new(1, 1));
    store.bump_attack.insert(1);
    store.health.insert(2, HealthInfo::new(1, 3));
    let mut spatial = SpatialHashTable::new(3, 3);
    let mut cell = SpatialHashCell::new();
    cell.attackable_set.insert(2);
    assert!(spatial.set_signed(Coord::new(2, 1), cell));
    let mut scheduler = Scheduler::new();
    let mut changes = Vec::new();
    let mut to_delete = Vec::new();
    let accept = scheduler.adjudicate(
        insert::coord(1, Coord::new(2, 1)),
        &store,
        &spatial,
        &mut changes,
        &mut to_delete,
    );
    assert!(!accept);
    assert!(changes.is_empty());
    assert!(scheduler.is_animating(1));

    scheduler.tick(50 * MILLIS, &mut changes);
    assert_eq!(
        changes,
        vec![
            AnimatedChange::Unchecked(insert::position(1, Position::new(1490, 1000))),
            AnimatedChange::Checked(insert::health(2, HealthInfo::new(0, 3))),
        ]
    );
    let (_, checked) = partition(&changes);
    let mut changes = Vec::new();
    let accept = scheduler.adjudicate(checked[0], &store, &spatial, &mut changes, &mut to_delete);
    assert!(!accept);
    assert!(changes.is_empty());
    assert_eq!(to_delete, vec![2]);
}

#[test]
fn schedule_all_schedules_in_order() {
    let mut scheduler = Scheduler::new();
    let mut changes = Vec::new();
    scheduler.schedule_all(
        vec![
            slide_to(1, 1000, 10),
            ChangeDesc::immediate(insert::solid(1)),
            slide_to(2, 1000, 10),
            slide_to(1, 2000, 10),
        ],
        &mut changes,
    );
    assert_eq!(changes, vec![AnimatedChange::Unchecked(insert::solid(1))]);
    assert_eq!(scheduler.len(), 2);
    assert_eq!(scheduler.live[0].id(), 2);
    assert_eq!(scheduler.live[1].id(), 1);
    assert_eq!(
        scheduler.get(1),
        Some(&Animation::Slide {
            id: 1,
            base: Position::new(0, 0),
            path: Position::new(2000, 0),
            progress: 0,
            duration: 10,
        })
    );
}
