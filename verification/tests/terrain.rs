use reaction_pipeline::content::depth::{DepthInfo, DepthType};
use reaction_pipeline::content::door::{DoorInfo, DoorState, DoorType};
use reaction_pipeline::content::field_ui::FieldUiOffsets;
use reaction_pipeline::content::health::HealthInfo;
use reaction_pipeline::content::light::LightInfo;
use reaction_pipeline::content::sprite::TileSprite;
use reaction_pipeline::content::sprite_effect::SpriteEffectInfo;
use reaction_pipeline::coord::Coord;
use reaction_pipeline::entity_id_allocator::EntityIdAllocator;
use reaction_pipeline::entity_store::{insert, EntityChange};
use reaction_pipeline::prototype;
use reaction_pipeline::terrain::water::{generate, HEIGHT, NUM_ENTITIES, WIDTH};
use reaction_pipeline::terrain::TerrainMetadata;

fn placed(id: u64, coord: Coord) -> Vec<EntityChange> {
    vec![insert::coord(id, coord), insert::position(id, coord.cast())]
}

#[test]
fn angler_prototype() {
    let mut changes = vec![insert::solid(0)];
    let at = Coord::new(2, 3);
    prototype::angler(&mut changes, 1, at);
    let mut expected = vec![insert::solid(0)];
    expected.extend(placed(1, at));
    expected.extend([
        insert::sprite(1, TileSprite::Angler),
        insert::depth(1, DepthInfo::new(DepthType::Fixed, -390)),
        insert::collider(1),
        insert::player(1),
        insert::door_opener(1),
        insert::light(1, LightInfo::new(200, 20, 1000, 1000, 1000, 1000)),
        insert::bump_attack(1),
        insert::attackable(1),
    ]);
    assert_eq!(changes, expected);
}

#[test]
fn crab_and_snail_prototypes() {
    let at = Coord::new(-1, 0);
    let mut changes = Vec::new();
    prototype::crab(&mut changes, 4, at);
    let mut expected = placed(4, at);
    expected.extend([
        insert::sprite(4, TileSprite::Crab),
        insert::depth(4, DepthInfo::new(DepthType::Fixed, -400)),
        insert::collider(4),
        insert::npc(4),
        insert::bump_attack(4),
        insert::attackable(4),
        insert::health(4, HealthInfo::full(8)),
        insert::field_ui(4, FieldUiOffsets { health_vertical: 7 }),
        insert::hide_in_dark(4),
    ]);
    assert_eq!(changes, expected);

    let mut changes = Vec::new();
    prototype::snail(&mut changes, 5, at);
    let mut expected = placed(5, at);
    expected.extend([
        insert::sprite(5, TileSprite::Snail),
        insert::depth(5, DepthInfo::new(DepthType::Fixed, -400)),
        insert::collider(5),
        insert::npc(5),
        insert::bump_attack(5),
        insert::attackable(5),
        insert::health(5, HealthInfo::full(3)),
        insert::field_ui(5, FieldUiOffsets { health_vertical: 1 }),
        insert::hide_in_dark(5),
    ]);
    assert_eq!(changes, expected);
}

#[test]
fn wall_prototypes() {
    let at = Coord::new(0, 0);
    let mut changes = Vec::new();
    prototype::inner_wall(&mut changes, 1, at);
    let mut expected = placed(1, at);
    expected.extend([
        insert::wall(1),
        insert::solid(1),
        insert::opacity(1, 1000),
        insert::sprite(1, TileSprite::InnerWall),
        insert::depth(1, DepthInfo::new(DepthType::Fixed, 0)),
    ]);
    assert_eq!(changes, expected);

    let mut changes = Vec::new();
    prototype::outer_wall(&mut changes, 1, at);
    let mut expected = placed(1, at);
    expected.extend([
        insert::wall(1),
        insert::solid(1),
        insert::opacity(1, 1000),
        insert::sprite(1, TileSprite::OuterWall),
        insert::depth(1, DepthInfo::new(DepthType::Fixed, -750)),
    ]);
    assert_eq!(changes, expected);
}

#[test]
fn floor_and_water_prototypes() {
    let at = Coord::new(7, 7);
    let mut changes = Vec::new();
    prototype::inner_floor(&mut changes, 1, at);
    let mut expected = placed(1, at);
    expected.extend([
        insert::sprite(1, TileSprite::InnerFloor),
        insert::depth(1, DepthInfo::new(DepthType::Bottom, 0)),
    ]);
    assert_eq!(changes, expected);

    let mut changes = Vec::new();
    prototype::inner_water(&mut changes, 1, at);
    let mut expected = placed(1, at);
    expected.extend([
        insert::sprite(1, TileSprite::InnerWater),
        insert::depth(1, DepthInfo::new(DepthType::Gradient, 10)),
        insert::sprite_effect(1, SpriteEffectInfo::water(6, 300, 700)),
    ]);
    assert_eq!(changes, expected);

    let mut changes = Vec::new();
    prototype::outer_floor(&mut changes, 1, at);
    let mut expected = placed(1, at);
    expected.extend([
        insert::sprite(1, TileSprite::OuterFloor),
        insert::depth(1, DepthInfo::new(DepthType::Bottom, 0)),
        insert::sprite_effect(1, SpriteEffectInfo::water(3, 200, 800)),
    ]);
    assert_eq!(changes, expected);
}

#[test]
fn door_prototypes_start_closed() {
    let at = Coord::new(1, 2);
    for (typ, sprite) in
        [(DoorType::Inner, TileSprite::InnerDoor), (DoorType::Outer, TileSprite::OuterDoor)]
    {
        let mut changes = Vec::new();
        match typ {
            DoorType::Inner => prototype::inner_door(&mut changes, 3, at),
            DoorType::Outer => prototype::outer_door(&mut changes, 3, at),
        }
        let mut expected = placed(3, at);
        expected.extend([
            insert::sprite(3, sprite),
            insert::depth(3, DepthInfo::new(DepthType::Gradient, 0)),
            insert::door(3, DoorInfo::new(typ, DoorState::Closed)),
            insert::solid(3),
            insert::opacity(3, 1000),
        ]);
        assert_eq!(changes, expected);
    }
}

#[test]
fn window_and_light_prototypes() {
    let at = Coord::new(1, 2);
    let mut changes = Vec::new();
    prototype::window(&mut changes, 3, at);
    let mut expected = placed(3, at);
    expected.extend([
        insert::sprite(3, TileSprite::Window),
        insert::depth(3, DepthInfo::new(DepthType::Fixed, 500)),
        insert::opacity(3, -1000),
    ]);
    assert_eq!(changes, expected);

    let mut changes = Vec::new();
    prototype::light(&mut changes, 3, at, [100, 200, 300]);
    let mut expected = placed(3, at);
    expected.extend([
        insert::sprite(3, TileSprite::Light),
        insert::depth(3, DepthInfo::new(DepthType::Fixed, 0)),
        insert::light(3, LightInfo::new(1000, 20, 2000, 100, 200, 300)),
    ]);
    assert_eq!(changes, expected);
}

#[test]
fn generate_makes_player_and_floors() {
    let mut changes = Vec::new();
    let mut allocator = EntityIdAllocator::new();
    allocator.allocate();
    allocator.allocate();
    let metadata = generate(&mut changes, &mut allocator);
    assert_eq!(
        metadata,
        TerrainMetadata { width: WIDTH, height: HEIGHT, player_id: Some(2) }
    );
    assert_eq!(allocator.next, 2 + NUM_ENTITIES);
    assert_eq!(changes.len(), 10 + 5 * 10_000);
    assert_eq!(changes[0], insert::coord(2, Coord::new(50, 50)));
    assert_eq!(changes[10], insert::coord(3, Coord::new(0, 0)));
    assert_eq!(changes[15], insert::coord(4, Coord::new(1, 0)));
    assert_eq!(changes[10 + 5 * 100], insert::coord(103, Coord::new(0, 1)));
    assert_eq!(changes[10 + 5 * 9_999], insert::coord(10_002, Coord::new(99, 99)));
    assert_eq!(
        changes[10 + 5 * 9_999 + 4],
        insert::sprite_effect(10_002, SpriteEffectInfo::water(3, 200, 800))
    );
}

#[test]
fn terrain_metadata_default_is_empty() {
    assert_eq!(
        TerrainMetadata::default(),
        TerrainMetadata { width: 0, height: 0, player_id: None }
    );
}
