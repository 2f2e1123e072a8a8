use reaction_pipeline::content::depth::{DepthInfo, DepthType};
use reaction_pipeline::content::sprite::TileSprite;
use reaction_pipeline::coord::{Coord, Position, UCoord};
use reaction_pipeline::direction::{Direction, DirectionBitmap};
use reaction_pipeline::renderer::sizes;
use reaction_pipeline::renderer::sprite_sheet::{
    PixelVec, SpriteLocation, SpriteResolution, SpriteTable, WallSpriteLocation,
};
use reaction_pipeline::renderer::template::{
    decimal_digits, is_filling, is_tag, scan_plain, tag_index, to_chars,
};
use reaction_pipeline::renderer::tile_renderer::{
    checked_num_cells, checked_rendering, instance_flags, light_range, populate_shader,
    scaled_width, shader_table, split_table, u64_to_arr, Cell,
    FrameInfo, Instance, LightCell, LightGrid, SpriteRenderInfo, VisionCellGrid,
    WallSpriteRenderInfo, BLANK_DEPTH, LIGHT_BUFFER_ENTRY_SIZE, LIGHT_BUFFER_SIZE,
    LIGHT_BUFFER_SIZE_PER_LIGHT,
};
use reaction_pipeline::spatial_hash::{SpatialHashCell, SpatialHashTable};

#[test]
fn u64_to_arr_splits_low_half_first() {
    assert_eq!(u64_to_arr(0), [0, 0]);
    assert_eq!(u64_to_arr(0x1234_5678_9abc_def0), [0x9abc_def0, 0x1234_5678]);
    assert_eq!(u64_to_arr(u64::MAX), [u32::MAX, u32::MAX]);
    assert_eq!(u64_to_arr(0x1_0000_0000), [0, 1]);
}

#[test]
fn frame_info_set_time_stores_the_frame_count() {
    let mut info = FrameInfo::new(0, 0x0000_0008_0000_0007);
    assert_eq!(info, FrameInfo { frame_count: [0, 0], total_time_ms: [7, 8] });
    info.set_time(0x0000_0002_0000_0003);
    assert_eq!(info.frame_count, [3, 2]);
    assert_eq!(info.total_time_ms, [7, 8]);
}

#[test]
fn light_cell_see_writes_five_bytes_lowest_first() {
    let mut bytes = vec![0xaa; 14];
    {
        let mut cell = LightCell { bytes: &mut bytes, token: 6 };
        cell.see(0x0706_0504_0302_0100);
    }
    assert_eq!(
        bytes,
        vec![0xaa, 0xaa, 0xaa, 0xaa, 0xaa, 0xaa, 0x00, 0x01, 0x02, 0x03, 0x04, 0xaa, 0xaa, 0xaa]
    );
}

#[test]
fn light_cell_sides() {
    let mut bytes = vec![0u8; 6];
    let mut cell = LightCell { bytes: &mut bytes, token: 0 };
    cell.see_side(Direction::East);
    cell.see_side(Direction::NorthWest);
    assert_eq!(cell.bytes[5], 0x84);
    cell.see_all_sides();
    assert_eq!(cell.bytes[5], 0xff);
    cell.clear_sides();
    assert_eq!(cell.bytes[5], 0);
    assert_eq!(&cell.bytes[..5], &[0, 0, 0, 0, 0]);
}

#[test]
fn light_grid_get_writes_through_to_the_table() {
    let mut grid = LightGrid { slice: vec![0; 4 * LIGHT_BUFFER_ENTRY_SIZE], width: 2 };
    let token = grid.get_token(UCoord::new(1, 1));
    assert_eq!(token, 18);
    {
        let mut cell = grid.get(token);
        assert_eq!(cell.token, 18);
        cell.see(0x01_0000_0002);
        cell.see_side(Direction::South);
    }
    let mut expected = vec![0u8; 24];
    expected[18] = 2;
    expected[22] = 1;
    expected[23] = 0x10;
    assert_eq!(grid.slice, expected);
    assert_eq!(grid.width, 2);
}

#[test]
fn light_grid_methods_touch_one_entry() {
    let mut grid = LightGrid { slice: vec![0; 3 * LIGHT_BUFFER_ENTRY_SIZE], width: 3 };
    let token = grid.get_token(UCoord::new(2, 0));
    assert_eq!(token, 12);
    grid.see(token, 0xff_ffff_ffff_ffff);
    grid.see_all_sides(token);
    assert_eq!(&grid.slice[..12], &[0u8; 12]);
    assert_eq!(&grid.slice[12..], &[0xff; 6]);
    grid.clear_sides(token);
    grid.see_side(token, Direction::North);
    assert_eq!(grid.slice[17], 1);
    grid.see(6, 1);
    assert_eq!(&grid.slice[6..12], &[1, 0, 0, 0, 0, 0]);
}

#[test]
fn vision_cell_records_time_and_sides() {
    let mut cell = Cell::default();
    assert_eq!(cell.side_bitmap, 0);
    cell.see(0x5_0000_0009);
    cell.see_side(Direction::West);
    cell.see_side(Direction::North);
    assert_eq!(cell.last, [9, 5]);
    assert_eq!(cell.side_bitmap, 0x41);
    cell.see_all_sides();
    assert_eq!(cell.side_bitmap, 0xff);
    cell.clear_sides();
    assert_eq!(cell.side_bitmap, 0);
    assert_eq!(cell.last, [9, 5]);
}

#[test]
fn vision_grid_touches_one_cell() {
    let mut grid = VisionCellGrid { slice: vec![Cell::default(); 6], width: 3 };
    let token = grid.get_token(UCoord::new(1, 1));
    assert_eq!(token, 4);
    grid.see(token, 77);
    grid.see_side(token, Direction::SouthEast);
    for (i, cell) in grid.slice.iter().enumerate() {
        if i == 4 {
            assert_eq!(cell.last, [77, 0]);
            assert_eq!(cell.side_bitmap, 8);
        } else {
            assert_eq!(*cell, Cell::default());
        }
    }
    grid.see_all_sides(0);
    assert_eq!(grid.slice[0].side_bitmap, 0xff);
    grid.clear_sides(0);
    assert_eq!(grid.slice[0].side_bitmap, 0);
}

#[test]
fn world_must_fit_the_cell_table() {
    assert_eq!(checked_num_cells(64, 64), Some(4096));
    assert_eq!(checked_num_cells(100, 40), Some(4000));
    assert_eq!(checked_num_cells(65, 64), None);
    assert_eq!(checked_num_cells(u32::MAX, u32::MAX), None);
    assert_eq!(checked_num_cells(0, 9), Some(0));
}

#[test]
fn buffer_sizes_follow_from_entry_size() {
    assert_eq!(LIGHT_BUFFER_ENTRY_SIZE, 6);
    assert_eq!(LIGHT_BUFFER_SIZE_PER_LIGHT, 4096 * 6);
    assert_eq!(LIGHT_BUFFER_SIZE, 32 * 4096 * 6);
    assert_eq!(sizes::TBO_VISION_ENTRY_SIZE, 6);
    assert_eq!(sizes::TBO_VISION_BITMAP_OFFSET, 5);
    assert_eq!(sizes::TBO_VISION_BUFFER_SIZE, 6 * 16384);
    assert_eq!(sizes::LIGHT_BUFFER_SIZE, 6 * 16384 * 32);
    assert_eq!(sizes::MAX_NUM_INSTANCES, 65536);
}

#[test]
fn shader_table_names_the_shared_numbers() {
    assert_eq!(
        shader_table(),
        vec![
            ("FLAGS_ENABLED", 1),
            ("FLAGS_SPRITE_EFFECT", 2),
            ("DEPTH_FIXED", 0),
            ("DEPTH_GRADIENT", 1),
            ("DEPTH_BOTTOM", 2),
            ("MAX_CELL_TABLE_SIZE", 4096),
            ("SPRITE_EFFECT_OUTER_WATER", 0),
        ]
    );
    assert_eq!(instance_flags::ENABLED, 1 << 0);
    assert_eq!(instance_flags::SPRITE_EFFECT, 1 << 1);
}

#[test]
fn populate_shader_fills_in_the_numbers() {
    let shader = "#define CELLS {{MAX_CELL_TABLE_SIZE}}u\nif (t == {{DEPTH_BOTTOM}}u && (f & {{FLAGS_SPRITE_EFFECT}}u) != 0u) { a < b; }";
    assert_eq!(
        populate_shader(shader),
        Some("#define CELLS 4096u\nif (t == 2u && (f & 2u) != 0u) { a < b; }".to_string())
    );
}

#[test]
fn populate_shader_without_names_returns_the_text() {
    assert_eq!(populate_shader("void main() {}"), Some("void main() {}".to_string()));
}

#[test]
fn populate_shader_rejects_broken_template() {
    assert_eq!(populate_shader("{{#if FLAGS_ENABLED}} never closed"), None);
}

#[test]
fn scaled_width_keeps_the_shape_of_the_window() {
    assert_eq!(scaled_width(800, 600, 360), 480);
    assert_eq!(scaled_width(1920, 1080, 360), 640);
    assert_eq!(scaled_width(1, 3, 2), 0);
    assert_eq!(scaled_width(u16::MAX, 1, u16::MAX), ((65535u32 * 65535) % 65536) as u16);
}

#[test]
fn depth_is_position_moved_by_offset_and_kept_in_the_world() {
    let fixed = DepthInfo::new(DepthType::Fixed, -390);
    assert_eq!(fixed.resolve(5000, 99_000), 4610);
    assert_eq!(fixed.resolve(200, 99_000), 0);
    assert_eq!(DepthInfo::new(DepthType::Gradient, 500).resolve(98_800, 99_000), 99_000);
    assert_eq!(DepthInfo::new(DepthType::Gradient, 500).resolve(10, -7), -7);
    assert_eq!(DepthInfo::new(DepthType::Bottom, 10).resolve(5000, 99_000), 10);
    assert_eq!(DepthInfo::new(DepthType::Fixed, i32::MAX).resolve(i64::MAX, i64::MAX), i64::MAX);
    assert_eq!(DepthInfo::new(DepthType::Fixed, i32::MIN).resolve(i64::MIN, i64::MAX), 0);
}

#[test]
fn instance_updates_touch_their_fields_only() {
    let mut instance = Instance::blank(PixelVec::new(16, 24));
    assert_eq!(
        instance,
        Instance {
            sprite_sheet_pix_coord: [0, 0],
            position: [0, 0],
            pix_size: [16, 24],
            pix_offset: [0, 0],
            depth: BLANK_DEPTH,
            depth_type: 0,
            flags: 0,
            sprite_effect: 0,
            sprite_effect_args: [0, 0, 0, 0],
        }
    );
    assert_eq!(BLANK_DEPTH, -1000);
    instance.update_sprite_info(SpriteRenderInfo {
        position: [48, 0],
        size: [16, 32],
        offset: [0, -8],
        wall_info: None,
    });
    instance.update_depth(3000, 10_000, DepthInfo::new(DepthType::Gradient, 10));
    assert_eq!(
        instance,
        Instance {
            sprite_sheet_pix_coord: [48, 0],
            position: [0, 0],
            pix_size: [16, 32],
            pix_offset: [0, -8],
            depth: 3010,
            depth_type: 1,
            flags: 0,
            sprite_effect: 0,
            sprite_effect_args: [0, 0, 0, 0],
        }
    );
    assert_eq!(
        SpriteRenderInfo::blank(PixelVec::new(16, 24)),
        SpriteRenderInfo { position: [0, 0], size: [16, 24], offset: [0, 0], wall_info: None }
    );
}

#[test]
fn sprite_resolution_follows_the_walls_around() {

    let size = PixelVec::new(16, 24);
    let none = PixelVec::new(0, 0);
    let top = SpriteLocation { position: 160, size, offset: PixelVec::new(0, -8) };
    let front = SpriteLocation { position: 176, size, offset: none };
    let mut table = SpriteTable::new();
    assert!(table.get(TileSprite::Crab).is_none());
    table.insert(TileSprite::Crab, SpriteResolution::Simple(SpriteLocation { position: 32, size, offset: none }));
    table.insert(
        TileSprite::InnerWall,
        SpriteResolution::Wall(WallSpriteLocation { base: 1000, size, offset: PixelVec::new(1, 2) }),
    );
    table.insert(TileSprite::OuterWall, SpriteResolution::WallFit { top, front });
    assert!(table.get(TileSprite::Angler).is_none());
    assert!(table.get(TileSprite::Light).is_none());

    let mut spatial = SpatialHashTable::new(3, 3);
    let mut cell = SpatialHashCell::new();
    cell.wall_neighbours = DirectionBitmap::new(0b0000_0101);
    assert!(spatial.set_signed(Coord::new(1, 2), cell));
    let walled = Position::new(1999, 2000);
    let bare = Position::new(2000, 2000);
    let outside = Position::new(-1, 0);

    assert_eq!(SpriteRenderInfo::resolve(TileSprite::Angler, &table, walled, &spatial), None);
    assert_eq!(
        SpriteRenderInfo::resolve(TileSprite::Crab, &table, outside, &spatial),
        Some(SpriteRenderInfo { position: [32, 0], size: [16, 24], offset: [0, 0], wall_info: None })
    );
    assert_eq!(
        SpriteRenderInfo::resolve(TileSprite::InnerWall, &table, walled, &spatial),
        Some(SpriteRenderInfo {
            position: [1000 + 16 * 5, 0],
            size: [16, 24],
            offset: [1, 2],
            wall_info: Some(WallSpriteRenderInfo { base_x: 1000, size: 16 }),
        })
    );
    assert_eq!(
        SpriteRenderInfo::resolve(TileSprite::InnerWall, &table, bare, &spatial),
        Some(SpriteRenderInfo {
            position: [1000, 0],
            size: [16, 24],
            offset: [1, 2],
            wall_info: Some(WallSpriteRenderInfo { base_x: 1000, size: 16 }),
        })
    );
    assert_eq!(SpriteRenderInfo::resolve(TileSprite::InnerWall, &table, outside, &spatial), None);
    assert_eq!(
        SpriteRenderInfo::resolve(TileSprite::InnerWall, &table, Position::new(3000, 0), &spatial),
        None
    );
    assert_eq!(
        SpriteRenderInfo::resolve(TileSprite::OuterWall, &table, walled, &spatial),
        Some(SpriteRenderInfo { position: [160, 0], size: [16, 24], offset: [0, -8], wall_info: None })
    );
    assert_eq!(
        SpriteRenderInfo::resolve(TileSprite::OuterWall, &table, bare, &spatial),
        Some(SpriteRenderInfo { position: [176, 0], size: [16, 24], offset: [0, 0], wall_info: None })
    );
    assert_eq!(SpriteRenderInfo::resolve(TileSprite::OuterWall, &table, outside, &spatial), None);

    assert_eq!(
        WallSpriteRenderInfo::resolve(TileSprite::InnerWall, &table),
        Some(WallSpriteRenderInfo { base_x: 1000, size: 16 })
    );
    assert_eq!(WallSpriteRenderInfo::resolve(TileSprite::Crab, &table), None);
    assert_eq!(WallSpriteRenderInfo::resolve(TileSprite::Angler, &table), None);
    assert_eq!(WallSpriteRenderInfo { base_x: 1000, size: 16 }.position(255), [5080, 0]);
    assert_eq!(
        WallSpriteRenderInfo { base_x: i32::MIN, size: i32::MIN }.position(255),
        [-2147483648 - 2147483648 * 255, 0]
    );
}

#[test]
fn populate_shader_refuses_templates_that_name_a_decorator() {
    assert_eq!(populate_shader("{{#*inline \"a\"}}{{> a}}{{/inline}}{{> a}}"), None);
    assert_eq!(populate_shader("{{~#*inline \"a\"}}{{> a}}{{/inline}}{{> a}}"), None);
    assert_eq!(populate_shader("{{ # * inline \"a\"}}x{{/inline}}{{> a}}"), None);
    assert_eq!(populate_shader("{{*inline}}"), None);
}

#[test]
fn populate_shader_leaves_stars_outside_tags_alone() {
    assert_eq!(
        populate_shader("x = a * {{FLAGS_SPRITE_EFFECT}}u; /* {{DEPTH_GRADIENT}} */"),
        Some("x = a * 2u; /* 1 */".to_string())
    );
}

#[test]
fn light_range_is_the_share_of_one_light() {
    assert_eq!(light_range(0), (0, LIGHT_BUFFER_SIZE_PER_LIGHT));
    assert_eq!(light_range(3), (3 * 24_576, 4 * 24_576));
    assert_eq!(light_range(31), (31 * 24_576, LIGHT_BUFFER_SIZE));
}

fn chars(s: &str) -> Vec<char> {
    s.chars().collect()
}

fn names() -> Vec<Vec<char>> {
    vec![chars("A"), chars("AB"), chars("MAX_CELL_TABLE_SIZE")]
}

#[test]
fn populate_shader_refuses_what_is_not_plain() {
    for shader in [
        "{{#if FLAGS_ENABLED}}x{{/if}}",
        "{{#each [1,2,3]}}x{{/each}}",
        "{{#> a}}b{{/a}}",
        "{{> a}}",
        "{{{{raw}}}}x{{{{/raw}}}}",
        "{{lookup this \"FLAGS_ENABLED\"}}",
        "{{(eq 1 1)}}",
        "{{! a comment }}",
        "{{ FLAGS_ENABLED }}",
        "{{~FLAGS_ENABLED}}",
        "{{{FLAGS_ENABLED}}}",
        "{{&FLAGS_ENABLED}}",
        "{{UNKNOWN_NAME}}",
        "{{flags_enabled}}",
        "{{FLAGS_ENABLED}",
        "{{",
        "a \\{{FLAGS_ENABLED}} b",
        "a \\\\{{FLAGS_ENABLED}} b",
    ] {
        assert_eq!(populate_shader(shader), None, "{}", shader);
    }
}

#[test]
fn populate_shader_keeps_all_that_is_not_a_tag() {
    let shader = "a { b } }} \\ c\n\t{ {X} } é {{DEPTH_FIXED}}{{DEPTH_BOTTOM}}{";
    assert_eq!(
        populate_shader(shader),
        Some("a { b } }} \\ c\n\t{ {X} } é 02{".to_string())
    );
    assert_eq!(populate_shader(""), Some(String::new()));
}

#[test]
fn checked_rendering_hands_on_only_the_text_that_the_template_stands_for() {
    let shader = "n = {{MAX_CELL_TABLE_SIZE}};";
    assert_eq!(
        checked_rendering(shader, Some("n = 4096;".to_string())),
        Some("n = 4096;".to_string())
    );
    assert_eq!(checked_rendering(shader, Some("n = 4097;".to_string())), None);
    assert_eq!(checked_rendering(shader, Some("n = 4096".to_string())), None);
    assert_eq!(checked_rendering(shader, Some("n = 4096;;".to_string())), None);
    assert_eq!(checked_rendering(shader, Some(shader.to_string())), None);
    assert_eq!(checked_rendering(shader, None), None);
    assert_eq!(checked_rendering("{{#if X}}", Some(String::new())), None);
}

#[test]
fn to_chars_gives_the_characters() {
    assert_eq!(to_chars(""), Vec::<char>::new());
    assert_eq!(to_chars("a{é}"), vec!['a', '{', 'é', '}']);
}

#[test]
fn decimal_digits_of_numbers() {
    assert_eq!(decimal_digits(0), vec!['0']);
    assert_eq!(decimal_digits(7), vec!['7']);
    assert_eq!(decimal_digits(10), vec!['1', '0']);
    assert_eq!(decimal_digits(4096), chars("4096"));
    assert_eq!(decimal_digits(u32::MAX), chars("4294967295"));
}

#[test]
fn tags_are_found_by_name() {
    let template = chars("x{{AB}}{{A}}{{ABC}}{{A}");
    assert!(is_tag(&template, 1, &chars("AB")));
    assert!(!is_tag(&template, 1, &chars("A")));
    assert!(!is_tag(&template, 0, &chars("AB")));
    assert!(is_tag(&template, 7, &chars("A")));
    assert!(!is_tag(&template, 19, &chars("A")));
    assert_eq!(tag_index(&template, 1, &names()), Some(1));
    assert_eq!(tag_index(&template, 7, &names()), Some(0));
    assert_eq!(tag_index(&template, 12, &names()), None);
    assert_eq!(tag_index(&template, 0, &names()), None);
}

#[test]
fn plain_templates_hold_only_tags_of_their_names() {
    assert!(scan_plain(&chars(""), &names()));
    assert!(scan_plain(&chars("a {{A}} b {{AB}}{{MAX_CELL_TABLE_SIZE}} }} {"), &names()));
    assert!(scan_plain(&chars("\\ {{A}}"), &names()));
    assert!(!scan_plain(&chars("\\{{A}}"), &names()));
    assert!(!scan_plain(&chars("{{ABC}}"), &names()));
    assert!(!scan_plain(&chars("{{{A}}}"), &names()));
    assert!(!scan_plain(&chars("{{A}"), &names()));
    assert!(!scan_plain(&chars("{{*A}}"), &names()));
}

#[test]
fn fillings_are_told_from_other_texts() {
    let values = vec![5, 60, 4096];
    let template = chars("a{{AB}}b{{A}}{{MAX_CELL_TABLE_SIZE}}");
    assert!(is_filling(&template, &names(), &values, &chars("a60b54096")));
    assert!(!is_filling(&template, &names(), &values, &chars("a60b5409")));
    assert!(!is_filling(&template, &names(), &values, &chars("a60b540966")));
    assert!(!is_filling(&template, &names(), &values, &chars("a61b54096")));
    assert!(!is_filling(&template, &names(), &values, &chars("A60b54096")));
    assert!(!is_filling(&template, &names(), &values, &chars("")));
    assert!(is_filling(&chars(""), &names(), &values, &chars("")));
    assert!(!is_filling(&chars(""), &names(), &values, &chars("x")));
}

#[test]
fn split_table_keeps_names_and_numbers_in_order() {
    let (names, values) = split_table(&shader_table());
    assert_eq!(names.len(), 7);
    assert_eq!(names[0], chars("FLAGS_ENABLED"));
    assert_eq!(names[6], chars("SPRITE_EFFECT_OUTER_WATER"));
    assert_eq!(values, vec![1, 2, 0, 1, 2, 4096, 0]);
}
