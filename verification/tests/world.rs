use reaction_pipeline::content::depth::{DepthInfo, DepthType};
use reaction_pipeline::content::door::{DoorInfo, DoorState, DoorType};
use reaction_pipeline::content::field_ui_sprite::{FieldUiSprite, NUM_FIELD_UI_SPRITES};
use reaction_pipeline::content::health::HealthInfo;
use reaction_pipeline::content::sprite::{SpriteFrame, TileSprite};
use reaction_pipeline::content::sprite_effect::{SpriteEffect, SpriteEffectInfo};
use reaction_pipeline::coord::{Coord, Position, UCoord};
use reaction_pipeline::direction::{
    CardinalDirection, Direction, ALL_DIRECTIONS_BITMAP, NO_DIRECTIONS_BITMAP,
};
use reaction_pipeline::entity_id_allocator::EntityIdAllocator;
use reaction_pipeline::entity_store::{insert, remove, ComponentType, ComponentValue, EntityChange};
use reaction_pipeline::frontend::VisibleRange;
use reaction_pipeline::spatial_hash::{EntitySet, SpatialHashCell, SpatialHashTable};
use reaction_pipeline::static_grid::StaticGrid;

#[test]
fn coord_cast_is_in_thousandths() {
    assert_eq!(Coord::new(3, -2).cast(), Position::new(3000, -2000));
    assert_eq!(
        Coord::new(i32::MAX, i32::MIN).cast(),
        Position::new(2_147_483_647_000, -2_147_483_648_000)
    );
}

#[test]
fn coord_checked_add_detects_overflow() {
    assert_eq!(Coord::new(1, 2).checked_add(Coord::new(-1, 5)), Some(Coord::new(0, 7)));
    assert_eq!(Coord::new(i32::MAX, 0).checked_add(Coord::new(1, 0)), None);
    assert_eq!(Coord::new(0, i32::MIN).checked_add(Coord::new(0, -1)), None);
}

#[test]
fn cardinal_directions_agree_with_direction_crate() {
    let ours = CardinalDirection::all();
    let theirs: Vec<direction::CardinalDirection> = direction::CardinalDirection::all().collect();
    assert_eq!(theirs.len(), 4);
    for (a, b) in ours.iter().zip(theirs.iter()) {
        assert_eq!(format!("{:?}", a), format!("{:?}", b));
        assert_eq!(format!("{:?}", a.opposite()), format!("{:?}", b.opposite()));
        assert_eq!(a.vector().x, b.coord().x);
        assert_eq!(a.vector().y, b.coord().y);
    }
}

#[test]
fn direction_bitmaps_agree_with_direction_crate() {
    let ours = [
        Direction::North,
        Direction::NorthEast,
        Direction::East,
        Direction::SouthEast,
        Direction::South,
        Direction::SouthWest,
        Direction::West,
        Direction::NorthWest,
    ];
    let theirs: Vec<direction::Direction> = direction::Direction::all().collect();
    assert_eq!(theirs.len(), 8);
    for (a, b) in ours.iter().zip(theirs.iter()) {
        assert_eq!(format!("{:?}", a), format!("{:?}", b));
        assert_eq!(a.bitmap_raw(), b.bitmap_raw());
    }
    assert_eq!(ALL_DIRECTIONS_BITMAP, direction::ALL_DIRECTIONS_BITMAP_RAW);
    assert_eq!(NO_DIRECTIONS_BITMAP, direction::NO_DIRECTIONS_BITMAP_RAW);
}

#[test]
fn opposite_direction_leads_back() {
    for d in CardinalDirection::all() {
        assert_eq!(d.opposite().opposite(), d);
        let v = d.vector();
        let back = d.opposite().vector();
        assert_eq!((v.x + back.x, v.y + back.y), (0, 0));
    }
    assert_eq!(CardinalDirection::North.vector(), Coord::new(0, -1));
    assert_eq!(CardinalDirection::East.opposite(), CardinalDirection::West);
}

#[test]
fn health_reduce_subtracts_and_saturates() {
    assert_eq!(HealthInfo::full(8), HealthInfo::new(8, 8));
    assert_eq!(HealthInfo::new(5, 8).reduce(1), HealthInfo::new(4, 8));
    assert_eq!(HealthInfo::new(1, 8).reduce(3), HealthInfo::new(-2, 8));
    assert_eq!(HealthInfo::new(i32::MIN, 8).reduce(1), HealthInfo::new(i32::MIN, 8));
    assert_eq!(HealthInfo::new(0, 8).reduce(u32::MAX), HealthInfo::new(i32::MIN, 8));
    assert!(HealthInfo::new(0, 8).is_dead());
    assert!(!HealthInfo::new(1, 8).is_dead());
}

#[test]
fn door_info_sprite_follows_type_and_state() {
    assert_eq!(DoorInfo::new(DoorType::Inner, DoorState::Closed).sprite(), TileSprite::InnerDoor);
    assert_eq!(DoorInfo::new(DoorType::Inner, DoorState::Open).sprite(), TileSprite::InnerDoorOpen);
    assert_eq!(DoorInfo::new(DoorType::Outer, DoorState::Closed).sprite(), TileSprite::OuterDoor);
    assert_eq!(DoorInfo::new(DoorType::Outer, DoorState::Open).sprite(), TileSprite::OuterDoorOpen);
    let door = DoorInfo::new(DoorType::Outer, DoorState::Open);
    assert_eq!(door.typ, DoorType::Outer);
    assert_eq!(door.state, DoorState::Open);
}

#[test]
fn door_animations_end_in_the_state_reached() {
    for typ in [DoorType::Inner, DoorType::Outer] {
        let open = typ.open_animation();
        let close = typ.close_animation();
        assert_eq!(open.len(), 2);
        assert_eq!(close.len(), 2);
        assert_eq!(open[1].sprite, typ.open_sprite());
        assert_eq!(close[1].sprite, typ.closed_sprite());
        assert_eq!(open[0], SpriteFrame::new(50, typ.closed_sprite()));
        assert_eq!(close[0], SpriteFrame::new(50, typ.open_sprite()));
    }
}

#[test]
fn sprite_frame_duration_is_in_nanoseconds() {
    assert_eq!(SpriteFrame::new(100, TileSprite::Crab).duration(), 100_000_000);
    assert_eq!(SpriteFrame::new(u32::MAX, TileSprite::Crab).duration(), 4_294_967_295_000_000);
    assert_eq!(SpriteFrame::new(0, TileSprite::Crab).duration(), 0);
}

#[test]
fn field_ui_sprite_count_closes_the_list() {
    assert_eq!(NUM_FIELD_UI_SPRITES, 2);
    assert_eq!(FieldUiSprite::HealthFull.index(), 0);
    assert_eq!(FieldUiSprite::HealthEmpty.index(), 1);
    assert_eq!(FieldUiSprite::_Num.index(), NUM_FIELD_UI_SPRITES);
}

#[test]
fn depth_and_effect_indices() {
    assert_eq!(DepthType::Fixed.index(), 0);
    assert_eq!(DepthType::Gradient.index(), 1);
    assert_eq!(DepthType::Bottom.index(), 2);
    assert_eq!(DepthType::Bottom.into_info(), DepthInfo::new(DepthType::Bottom, 0));
    assert_eq!(SpriteEffect::OuterWater.index(), 0);
    assert_eq!(SpriteEffectInfo::water(3, 200, 800).effect(), SpriteEffect::OuterWater);
}

#[test]
fn entity_change_knows_its_entity_and_kind() {
    let change = insert::coord(5, Coord::new(1, 1));
    assert_eq!(change.id(), 5);
    assert_eq!(change.typ(), ComponentType::Coord);
    assert_eq!(remove::solid(6).id(), 6);
    assert_eq!(remove::solid(6).typ(), ComponentType::Solid);
    assert_eq!(ComponentValue::DoorClosingFinished.typ(), ComponentType::DoorClosingFinished);
    assert_eq!(insert::solid(6), EntityChange::Insert(6, ComponentValue::Solid));
}

#[test]
fn entity_set_lowest_is_the_smallest_id() {
    let mut set = EntitySet::new();
    assert!(set.is_empty());
    assert_eq!(set.lowest(), None);
    for id in [9, 4, 11, 4] {
        set.insert(id);
    }
    assert!(!set.is_empty());
    assert_eq!(set.lowest(), Some(4));
    assert!(set.contains(11));
    assert!(!set.contains(5));
}

#[test]
fn spatial_hash_has_cells_only_inside() {
    let mut table = SpatialHashTable::new(3, 2);
    assert!(table.get_signed(Coord::new(0, 0)).is_some());
    assert!(table.get_signed(Coord::new(2, 1)).is_some());
    assert!(table.get_signed(Coord::new(3, 1)).is_none());
    assert!(table.get_signed(Coord::new(2, 2)).is_none());
    assert!(table.get_signed(Coord::new(-1, 0)).is_none());
    assert!(table.get(UCoord::new(3, 0)).is_none());

    let mut cell = SpatialHashCell::new();
    cell.npc_count = 2;
    assert!(table.set_signed(Coord::new(2, 1), cell));
    assert!(!table.set_signed(Coord::new(2, 2), SpatialHashCell::new()));
    assert_eq!(table.get_signed(Coord::new(2, 1)).unwrap().npc_count, 2);
    assert!(table.get_signed(Coord::new(2, 1)).unwrap().is_occupied());
    assert_eq!(table.get(UCoord::new(1, 1)).unwrap().npc_count, 0);
    assert!(!table.get(UCoord::new(1, 1)).unwrap().is_occupied());
}

#[test]
fn static_grid_is_row_major() {
    let mut grid = StaticGrid::from_cells(3, 2, vec![0, 1, 2, 10, 11, 12]);
    assert_eq!(grid.width(), 3);
    assert_eq!(grid.height(), 2);
    assert_eq!(*grid.get_checked(UCoord::new(2, 0)), 2);
    assert_eq!(*grid.get_checked(UCoord::new(0, 1)), 10);
    assert_eq!(grid.index_of(UCoord::new(1, 1)), 4);
    assert_eq!(grid.convert_signed(Coord::new(2, 1)), Some(UCoord::new(2, 1)));
    assert_eq!(grid.convert_signed(Coord::new(-1, 1)), None);
    assert_eq!(grid.convert_signed(Coord::new(0, 2)), None);
    grid.set_checked(UCoord::new(1, 1), 99);
    assert_eq!(grid.get(UCoord::new(1, 1)), Some(&99));
    assert_eq!(grid.get_signed(Coord::new(1, 0)), Some(&1));
    assert_eq!(grid.get(UCoord::new(0, 2)), None);
}

#[test]
fn visible_range_default_is_the_origin() {
    let range = VisibleRange::default();
    assert_eq!((range.x_min, range.x_max, range.y_min, range.y_max), (0, 0, 0, 0));
}

#[test]
fn allocator_hands_out_rising_ids() {
    let mut allocator = EntityIdAllocator::new();
    assert_eq!(allocator.allocate(), 0);
    assert_eq!(allocator.allocate(), 1);
    assert_eq!(allocator.remaining(), u64::MAX - 2);
}

#[test]
fn position_lies_in_the_cell_that_holds_it() {
    let mut table = SpatialHashTable::new(2, 2);
    let mut cell = SpatialHashCell::new();
    cell.solid_count = 7;
    assert!(table.set_signed(Coord::new(1, 0), cell));
    assert_eq!(table.get_position(Position::new(1000, 999)).unwrap().solid_count, 7);
    assert_eq!(table.get_position(Position::new(1999, 0)).unwrap().solid_count, 7);
    assert_eq!(table.get_position(Position::new(999, 0)).unwrap().solid_count, 0);
    assert!(table.get_position(Position::new(2000, 0)).is_none());
    assert!(table.get_position(Position::new(0, 2000)).is_none());
    assert!(table.get_position(Position::new(-1, 0)).is_none());
    assert!(table.get_position(Position::new(0, i64::MIN)).is_none());
    assert!(table.get_position(Position::new(i64::MAX, 0)).is_none());
}

#[test]
fn direction_bitmap_has_the_directions_whose_bits_are_set() {
    let bitmap = reaction_pipeline::direction::DirectionBitmap::new(0x11);
    assert!(bitmap.has(Direction::North));
    assert!(bitmap.has(Direction::South));
    assert!(!bitmap.has(Direction::East));
    assert_eq!(bitmap.bitmap_raw(), 0x11);
    let theirs = direction::DirectionBitmap::new(0x11);
    for (a, b) in [
        (Direction::North, direction::Direction::North),
        (Direction::East, direction::Direction::East),
        (Direction::South, direction::Direction::South),
        (Direction::NorthWest, direction::Direction::NorthWest),
    ] {
        assert_eq!(bitmap.has(a), theirs.has(b));
    }
}

#[test]
fn tile_sprites_are_indexed_in_order() {
    assert_eq!(TileSprite::Angler.index(), 0);
    assert_eq!(TileSprite::OuterDoorOpen.index(), 11);
    assert_eq!(TileSprite::Light.index(), 13);
    assert_eq!(reaction_pipeline::content::sprite::NUM_TILE_SPRITES, 14);
}
