//! Tables of what has been seen, in the layout that the shaders read.
//!
//! A vision table holds one [`Cell`] for each cell of the world.  A light
//! table holds for each cell an entry of six bytes: the frame at which the
//! light last reached the cell, as five bytes with the lowest first, and a
//! bitmap of the sides that it reached.

pub mod instance_flags;

use vstd::prelude::*;
use crate::content::depth::{DepthInfo, DepthType};
use crate::content::sprite::TileSprite;
use crate::content::sprite_effect::SpriteEffect;
use crate::coord::{Milli, Position, UCoord};
use crate::renderer::sprite_sheet::{PixelVec, SpriteResolution, SpriteTable};
use crate::renderer::template::{
    filled, is_filling, is_plain, is_plain_name, names_view, plain_names, scan_plain, to_chars,
};
use crate::spatial_hash::SpatialHashTable;
use crate::direction::{Direction, ALL_DIRECTIONS_BITMAP, NO_DIRECTIONS_BITMAP};

verus! {

pub const MAX_CELL_TABLE_SIZE: usize = 4096;

pub const MAX_NUM_LIGHTS: usize = 32;

pub const LIGHT_BUFFER_ENTRY_SIZE_FRAME_COUNT: usize = 5;

pub const LIGHT_BUFFER_ENTRY_SIZE_SIDE_BITMAP: usize = 1;

pub const LIGHT_BUFFER_ENTRY_SIZE: usize = LIGHT_BUFFER_ENTRY_SIZE_FRAME_COUNT
    + LIGHT_BUFFER_ENTRY_SIZE_SIDE_BITMAP;

pub const LIGHT_BUFFER_NUM_ENTRIES: usize = MAX_NUM_LIGHTS * MAX_CELL_TABLE_SIZE;

pub const LIGHT_BUFFER_SIZE_PER_LIGHT: usize = MAX_CELL_TABLE_SIZE * LIGHT_BUFFER_ENTRY_SIZE;

pub const LIGHT_BUFFER_SIZE: usize = LIGHT_BUFFER_SIZE_PER_LIGHT * MAX_NUM_LIGHTS;

pub const LIGHT_BUFFER_OFFSET_SIDE_BITMAP: usize = LIGHT_BUFFER_ENTRY_SIZE_FRAME_COUNT;

/// The low and the high half of `u`.
pub open spec fn spec_u64_to_arr(u: u64) -> (u32, u32) {
    ((u & 0xffff_ffff) as u32, (u >> 32) as u32)
}

/// The two halves of `u`, the low one first.
pub fn u64_to_arr(u: u64) -> (arr: [u32; 2])
    ensures
        arr[0] == spec_u64_to_arr(u).0,
        arr[1] == spec_u64_to_arr(u).1,
        arr[0] + arr[1] * 0x1_0000_0000 == u,
{
    let low: u64 = u & 0xffff_ffff;
    let high: u64 = u >> 32;
    assert(low <= 0xffff_ffff && high <= 0xffff_ffff && low + high * 0x1_0000_0000 == u)
        by (bit_vector)
        requires
            low == u & 0xffff_ffff,
            high == u >> 32,
    ;
    [low as u32, high as u32]
}

/// One sprite as the shaders draw it.  Places in the sprite sheet and
/// sizes are in pixels; the position, the depth and the arguments of the
/// effect are in thousandths.
#[derive(Clone, Copy, Debug, PartialEq, Eq)]
pub struct Instance {
    pub sprite_sheet_pix_coord: [i64; 2],
    pub position: [i64; 2],
    pub pix_size: [i32; 2],
    pub pix_offset: [i32; 2],
    pub depth: i64,
    pub depth_type: u32,
    pub flags: u32,
    pub sprite_effect: u32,
    pub sprite_effect_args: [Milli; 4],
}

/// Where the wall sprites of a sprite lie in the sheet.
#[derive(Clone, Copy, Debug, PartialEq, Eq, Structural)]
pub struct WallSpriteRenderInfo {
    pub base_x: i32,
    pub size: i32,
}

/// Where a sprite lies in the sheet, and how it is drawn.
#[derive(Clone, Copy, Debug, PartialEq, Eq)]
pub struct SpriteRenderInfo {
    pub position: [i64; 2],
    pub size: [i32; 2],
    pub offset: [i32; 2],
    pub wall_info: Option<WallSpriteRenderInfo>,
}

/// The depth that marks an instance as not drawn.
pub const BLANK_DEPTH: i64 = -1000;

impl Instance {
    /// An instance that shows the blank sprite at the start of the sheet,
    /// which is as large as one sprite.
    pub fn blank(sprite_size: PixelVec) -> (instance: Instance)
        ensures
            instance.sprite_sheet_pix_coord[0] == 0,
            instance.sprite_sheet_pix_coord[1] == 0,
            instance.position[0] == 0,
            instance.position[1] == 0,
            instance.pix_size[0] == sprite_size.x,
            instance.pix_size[1] == sprite_size.y,
            instance.pix_offset[0] == 0,
            instance.pix_offset[1] == 0,
            instance.depth == BLANK_DEPTH,
            instance.depth_type == 0,
            instance.flags == 0,
            instance.sprite_effect == 0,
            forall|i: int| 0 <= i < 4 ==> instance.sprite_effect_args[i] == 0,
    {
        Instance {
            sprite_sheet_pix_coord: [0, 0],
            position: [0, 0],
            pix_size: [sprite_size.x, sprite_size.y],
            pix_offset: [0, 0],
            depth: BLANK_DEPTH,
            depth_type: 0,
            flags: 0,
            sprite_effect: 0,
            sprite_effect_args: [0, 0, 0, 0],
        }
    }

    /// Makes the instance show the sprite described by `sprite_info`.
    pub fn update_sprite_info(&mut self, sprite_info: SpriteRenderInfo)
        ensures
            final(self).sprite_sheet_pix_coord == sprite_info.position,
            final(self).pix_size == sprite_info.size,
            final(self).pix_offset == sprite_info.offset,
            final(self).position == old(self).position,
            final(self).depth == old(self).depth,
            final(self).depth_type == old(self).depth_type,
            final(self).flags == old(self).flags,
            final(self).sprite_effect == old(self).sprite_effect,
            final(self).sprite_effect_args == old(self).sprite_effect_args,
    {
        let SpriteRenderInfo { position, size, offset, .. } = sprite_info;
        self.sprite_sheet_pix_coord = position;
        self.pix_size = size;
        self.pix_offset = offset;
    }

    /// Gives the instance the depth of a sprite at the vertical position
    /// `y_position` in a world that reaches down to `max_y_position`.
    pub fn update_depth(&mut self, y_position: i64, max_y_position: i64, depth: DepthInfo)
        ensures
            final(self).depth_type == depth.typ.spec_index(),
            final(self).depth == depth.spec_resolve(y_position, max_y_position),
            final(self).sprite_sheet_pix_coord == old(self).sprite_sheet_pix_coord,
            final(self).position == old(self).position,
            final(self).pix_size == old(self).pix_size,
            final(self).pix_offset == old(self).pix_offset,
            final(self).flags == old(self).flags,
            final(self).sprite_effect == old(self).sprite_effect,
            final(self).sprite_effect_args == old(self).sprite_effect_args,
    {
        self.depth_type = depth.typ.index();
        self.depth = depth.resolve(y_position, max_y_position);
    }
}

impl WallSpriteRenderInfo {
    /// Where the wall sprites of `sprite` lie, if `sprite` is picked by
    /// the walls around its cell.
    pub open spec fn spec_resolve(sprite: TileSprite, sprite_table: &SpriteTable) -> Option<
        WallSpriteRenderInfo,
    > {
        match sprite_table.spec_get(sprite) {
            Some(SpriteResolution::Wall(location)) => Some(
                WallSpriteRenderInfo { base_x: location.base, size: location.size.x },
            ),
            _ => None,
        }
    }

    /// Where the wall sprites of `sprite` lie, if `sprite` is picked by
    /// the walls around its cell.
    pub fn resolve(sprite: TileSprite, sprite_table: &SpriteTable) -> (r: Option<Self>)
        ensures
            r == Self::spec_resolve(sprite, sprite_table),
    {
        if let Some(SpriteResolution::Wall(location)) = sprite_table.get(sprite) {
            return Some(Self { base_x: location.base(), size: location.size().x });
        }
        None
    }

    /// Where in the sheet the sprite for the neighbours `bitmap` lies.
    pub fn position(self, bitmap: u8) -> (p: [i64; 2])
        ensures
            p[0] == self.base_x + self.size * bitmap,
            p[1] == 0,
    {
        assert(-0x8000_0000 * 0xff <= self.size * bitmap <= 0x7fff_ffff * 0xff) by (nonlinear_arith)
            requires
                -0x8000_0000 <= self.size <= 0x7fff_ffff,
                0 <= bitmap <= 0xff,
        ;
        [self.base_x as i64 + self.size as i64 * bitmap as i64, 0]
    }
}

/// Where a sprite lies in the sheet, before it is laid out for drawing.
pub ghost struct Resolved {
    pub position_x: int,
    pub size: PixelVec,
    pub offset: PixelVec,
    pub wall_info: Option<WallSpriteRenderInfo>,
}

/// Where `sprite` lies in the sheet when it is drawn at `position`.
///
/// A sprite without a resolution has no place.  A sprite that depends on
/// the walls around it has none either where `position` lies outside the
/// world.
pub open spec fn resolved(
    sprite: TileSprite,
    sprite_table: &SpriteTable,
    position: Position,
    spatial_hash: &SpatialHashTable,
) -> Option<Resolved> {
    let at = SpatialHashTable::cell_of(position);
    let in_world = crate::static_grid::in_bounds(
        spatial_hash.grid.width,
        spatial_hash.grid.height,
        at.0,
        at.1,
    );
    let neighbours = spatial_hash.grid.spec_cell(at.0, at.1).wall_neighbours;
    match sprite_table.spec_get(sprite) {
        None => None,
        Some(SpriteResolution::Simple(location)) => Some(
            Resolved {
                position_x: location.position as int,
                size: location.size,
                offset: location.offset,
                wall_info: None,
            },
        ),
        Some(SpriteResolution::Wall(location)) => if in_world {
            Some(
                Resolved {
                    position_x: location.spec_position(neighbours.raw),
                    size: location.size,
                    offset: location.offset,
                    wall_info: Some(
                        WallSpriteRenderInfo { base_x: location.base, size: location.size.x },
                    ),
                },
            )
        } else {
            None
        },
        Some(SpriteResolution::WallFit { top, front }) => if in_world {
            let location = if neighbours.spec_has(Direction::North) {
                top
            } else {
                front
            };
            Some(
                Resolved {
                    position_x: location.position as int,
                    size: location.size,
                    offset: location.offset,
                    wall_info: None,
                },
            )
        } else {
            None
        },
    }
}

impl SpriteRenderInfo {
    /// Whether `self` lays out `place` for drawing.
    pub open spec fn lays_out(self, place: Resolved) -> bool {
        &&& self.position[0] == place.position_x
        &&& self.position[1] == 0
        &&& self.size[0] == place.size.x
        &&& self.size[1] == place.size.y
        &&& self.offset[0] == place.offset.x
        &&& self.offset[1] == place.offset.y
        &&& self.wall_info == place.wall_info
    }

    /// Where `sprite` lies in the sheet when it is drawn at `position`.
    pub fn resolve(
        sprite: TileSprite,
        sprite_table: &SpriteTable,
        position: Position,
        spatial_hash: &SpatialHashTable,
    ) -> (r: Option<Self>)
        requires
            spatial_hash.wf(),
        ensures
            r is Some <==> resolved(sprite, sprite_table, position, spatial_hash) is Some,
            r matches Some(info) ==> info.lays_out(
                resolved(sprite, sprite_table, position, spatial_hash)->0,
            ),
    {
        if let Some(sprite_resolution) = sprite_table.get(sprite) {
            let (position_x, size, offset, wall_info) = match sprite_resolution {
                SpriteResolution::Simple(location) => (
                    location.position as i64,
                    location.size,
                    location.offset,
                    None,
                ),
                SpriteResolution::Wall(location) => {
                    if let Some(sh_cell) = spatial_hash.get_position(position) {
                        let bitmap = sh_cell.wall_neighbours.bitmap_raw();
                        (
                            location.position(bitmap),
                            location.size(),
                            location.offset(),
                            Some(
                                WallSpriteRenderInfo {
                                    base_x: location.base(),
                                    size: location.size().x,
                                },
                            ),
                        )
                    } else {
                        return None;
                    }
                },
                SpriteResolution::WallFit { top, front } => {
                    if let Some(sh_cell) = spatial_hash.get_position(position) {
                        let location = if sh_cell.wall_neighbours.has(Direction::North) {
                            top
                        } else {
                            front
                        };
                        (location.position as i64, location.size, location.offset, None)
                    } else {
                        return None;
                    }
                },
            };
            return Some(
                Self {
                    position: [position_x, 0],
                    size: [size.x, size.y],
                    offset: [offset.x, offset.y],
                    wall_info,
                },
            );
        }
        None
    }

    /// The blank sprite at the start of the sheet, which is as large as
    /// one sprite.
    pub fn blank(sprite_size: PixelVec) -> (info: Self)
        ensures
            info.lays_out(
                Resolved {
                    position_x: 0,
                    size: sprite_size,
                    offset: PixelVec { x: 0, y: 0 },
                    wall_info: None,
                },
            ),
    {
        Self {
            position: [0, 0],
            size: [sprite_size.x, sprite_size.y],
            offset: [0, 0],
            wall_info: None,
        }
    }
}

/// What the shaders are told of the frame being drawn.
#[derive(Clone, Copy, Debug, PartialEq, Eq)]
pub struct FrameInfo {
    pub frame_count: [u32; 2],
    pub total_time_ms: [u32; 2],
}

impl FrameInfo {
    /// What the shaders are told at the end of a frame: the number of the
    /// frame and the time since the start in milliseconds, each in two
    /// halves.
    pub fn new(frame_count: u64, total_time_ms: u64) -> (info: FrameInfo)
        ensures
            info.frame_count[0] == spec_u64_to_arr(frame_count).0,
            info.frame_count[1] == spec_u64_to_arr(frame_count).1,
            info.total_time_ms[0] == spec_u64_to_arr(total_time_ms).0,
            info.total_time_ms[1] == spec_u64_to_arr(total_time_ms).1,
    {
        FrameInfo { frame_count: u64_to_arr(frame_count), total_time_ms: u64_to_arr(total_time_ms) }
    }

    /// Stores `time` as the frame count, in two halves.
    pub fn set_time(&mut self, time: u64)
        ensures
            final(self).frame_count[0] == spec_u64_to_arr(time).0,
            final(self).frame_count[1] == spec_u64_to_arr(time).1,
            final(self).total_time_ms == old(self).total_time_ms,
    {
        self.frame_count = u64_to_arr(time);
    }
}

/// One cell of a vision table: when it was last seen, and which of its
/// sides were.
#[derive(Clone, Copy, Debug, PartialEq, Eq)]
pub struct Cell {
    pub last: [u32; 2],
    pub side_bitmap: u32,
    pub _pad0: u32,
}

impl Default for Cell {
    /// A cell that was never seen.
    fn default() -> (cell: Self)
        ensures
            cell.last[0] == 0,
            cell.last[1] == 0,
            cell.side_bitmap == NO_DIRECTIONS_BITMAP,
            cell._pad0 == 0,
    {
        Cell { last: [0, 0], side_bitmap: NO_DIRECTIONS_BITMAP as u32, _pad0: 0 }
    }
}

impl Cell {
    pub fn see(&mut self, time: u64)
        ensures
            final(self).last[0] == spec_u64_to_arr(time).0,
            final(self).last[1] == spec_u64_to_arr(time).1,
            final(self).side_bitmap == old(self).side_bitmap,
            final(self)._pad0 == old(self)._pad0,
    {
        self.last = u64_to_arr(time);
    }

    pub fn clear_sides(&mut self)
        ensures
            final(self).side_bitmap == NO_DIRECTIONS_BITMAP,
            final(self).last == old(self).last,
            final(self)._pad0 == old(self)._pad0,
    {
        self.side_bitmap = NO_DIRECTIONS_BITMAP as u32;
    }

    pub fn see_side(&mut self, direction: Direction)
        ensures
            final(self).side_bitmap == old(self).side_bitmap | (direction.spec_bitmap_raw() as u32),
            final(self).last == old(self).last,
            final(self)._pad0 == old(self)._pad0,
    {
        self.side_bitmap = self.side_bitmap | (direction.bitmap_raw() as u32);
    }

    pub fn see_all_sides(&mut self)
        ensures
            final(self).side_bitmap == ALL_DIRECTIONS_BITMAP,
            final(self).last == old(self).last,
            final(self)._pad0 == old(self)._pad0,
    {
        self.side_bitmap = ALL_DIRECTIONS_BITMAP as u32;
    }
}

/// The number of rows of cells that a drawing shows.
pub const NUM_ROWS: u16 = 15;

/// The width in pixels of the drawing that is `height_px` high and has
/// the shape of a window of the given size.  A width beyond 16 bits loses
/// what lies above them.
pub fn scaled_width(window_width_px: u16, window_height_px: u16, height_px: u16) -> (width_px: u16)
    requires
        window_height_px > 0,
    ensures
        width_px == ((window_width_px * height_px) / (window_height_px as int)) % 0x1_0000,
{
    assert(window_width_px * height_px <= 0xffff * 0xffff) by (nonlinear_arith)
        requires
            0 <= window_width_px <= 0xffff,
            0 <= height_px <= 0xffff,
    ;
    let wide: u32 = (window_width_px as u32 * height_px as u32) / window_height_px as u32;
    (wide % 0x1_0000) as u16
}

/// The bytes of the light table that belong to the light `light_id`:
/// where they start, and where they end.
pub fn light_range(light_id: u32) -> (r: (usize, usize))
    requires
        light_id < MAX_NUM_LIGHTS,
    ensures
        r.0 == light_id * LIGHT_BUFFER_SIZE_PER_LIGHT,
        r.1 == r.0 + LIGHT_BUFFER_SIZE_PER_LIGHT,
        r.1 <= LIGHT_BUFFER_SIZE,
{
    assert(LIGHT_BUFFER_SIZE_PER_LIGHT == 24_576);
    assert(LIGHT_BUFFER_SIZE == 32 * 24_576);
    let start = light_id as usize * LIGHT_BUFFER_SIZE_PER_LIGHT;
    (start, start + LIGHT_BUFFER_SIZE_PER_LIGHT)
}

/// The number of cells of a world of the given size, if the tables have
/// room for them.
pub fn checked_num_cells(width: u32, height: u32) -> (r: Option<usize>)
    ensures
        r is Some <==> width * height <= MAX_CELL_TABLE_SIZE,
        r matches Some(n) ==> n == width * height,
{
    assert(width * height <= 0xffff_ffff * 0xffff_ffff) by (nonlinear_arith)
        requires
            0 <= width <= 0xffff_ffff,
            0 <= height <= 0xffff_ffff,
    ;
    let n: u64 = width as u64 * height as u64;
    if n > MAX_CELL_TABLE_SIZE as u64 {
        None
    } else {
        Some(n as usize)
    }
}

/// The vision table of a world that is `width` cells wide.
pub struct VisionCellGrid {
    pub slice: Vec<Cell>,
    pub width: u32,
}

impl VisionCellGrid {
    /// Place of the cell `v` in the table.
    pub fn get_token(&self, v: UCoord) -> (token: usize)
        requires
            v.y * self.width + v.x <= usize::MAX,
        ensures
            token == v.y * self.width + v.x,
    {
        assert(v.y * self.width <= 0xffff_ffff * 0xffff_ffff) by (nonlinear_arith)
            requires
                0 <= v.y <= 0xffff_ffff,
                0 <= self.width <= 0xffff_ffff,
        ;
        let wide: u64 = v.y as u64 * self.width as u64 + v.x as u64;
        wide as usize
    }

    pub fn see(&mut self, token: usize, time: u64)
        requires
            token < old(self).slice@.len(),
        ensures
            final(self).width == old(self).width,
            final(self).slice@.len() == old(self).slice@.len(),
            forall|i: int|
                0 <= i < old(self).slice@.len() && i != token ==> final(self).slice@[i] == old(
                    self,
                ).slice@[i],
            final(self).slice@[token as int].last[0] == spec_u64_to_arr(time).0,
            final(self).slice@[token as int].last[1] == spec_u64_to_arr(time).1,
            final(self).slice@[token as int].side_bitmap == old(self).slice@[token as int].side_bitmap,
            final(self).slice@[token as int]._pad0 == old(self).slice@[token as int]._pad0,
    {
        let mut cell = self.slice[token];
        cell.see(time);
        self.slice.set(token, cell);
    }

    pub fn clear_sides(&mut self, token: usize)
        requires
            token < old(self).slice@.len(),
        ensures
            final(self).width == old(self).width,
            final(self).slice@.len() == old(self).slice@.len(),
            forall|i: int|
                0 <= i < old(self).slice@.len() && i != token ==> final(self).slice@[i] == old(
                    self,
                ).slice@[i],
            final(self).slice@[token as int].side_bitmap == NO_DIRECTIONS_BITMAP,
            final(self).slice@[token as int].last == old(self).slice@[token as int].last,
            final(self).slice@[token as int]._pad0 == old(self).slice@[token as int]._pad0,
    {
        let mut cell = self.slice[token];
        cell.clear_sides();
        self.slice.set(token, cell);
    }

    pub fn see_side(&mut self, token: usize, direction: Direction)
        requires
            token < old(self).slice@.len(),
        ensures
            final(self).width == old(self).width,
            final(self).slice@.len() == old(self).slice@.len(),
            forall|i: int|
                0 <= i < old(self).slice@.len() && i != token ==> final(self).slice@[i] == old(
                    self,
                ).slice@[i],
            final(self).slice@[token as int].side_bitmap == old(self).slice@[token as int].side_bitmap
                | (direction.spec_bitmap_raw() as u32),
            final(self).slice@[token as int].last == old(self).slice@[token as int].last,
            final(self).slice@[token as int]._pad0 == old(self).slice@[token as int]._pad0,
    {
        let mut cell = self.slice[token];
        cell.see_side(direction);
        self.slice.set(token, cell);
    }

    pub fn see_all_sides(&mut self, token: usize)
        requires
            token < old(self).slice@.len(),
        ensures
            final(self).width == old(self).width,
            final(self).slice@.len() == old(self).slice@.len(),
            forall|i: int|
                0 <= i < old(self).slice@.len() && i != token ==> final(self).slice@[i] == old(
                    self,
                ).slice@[i],
            final(self).slice@[token as int].side_bitmap == ALL_DIRECTIONS_BITMAP,
            final(self).slice@[token as int].last == old(self).slice@[token as int].last,
            final(self).slice@[token as int]._pad0 == old(self).slice@[token as int]._pad0,
    {
        let mut cell = self.slice[token];
        cell.see_all_sides();
        self.slice.set(token, cell);
    }
}

/// Byte `i` of `frame`, the lowest being byte 0.
pub open spec fn frame_byte(frame: u64, i: int) -> u8 {
    ((frame >> ((8 * i) as u64)) & 0xff) as u8
}

/// The bytes `bytes`, with the frame count of the entry at `token`
/// replaced by the low five bytes of `frame`.
pub open spec fn with_frame(bytes: Seq<u8>, token: int, frame: u64) -> Seq<u8> {
    Seq::new(
        bytes.len(),
        |k: int|
            if token <= k < token + LIGHT_BUFFER_ENTRY_SIZE_FRAME_COUNT {
                frame_byte(frame, k - token)
            } else {
                bytes[k]
            },
    )
}

/// The frame count stored in the entry at `token`.
pub open spec fn stored_frame(bytes: Seq<u8>, token: int) -> int {
    bytes[token] + bytes[token + 1] * 0x100 + bytes[token + 2] * 0x1_0000 + bytes[token + 3]
        * 0x100_0000 + bytes[token + 4] * 0x1_0000_0000
}

/// The frame count that `LightCell::see` stores is the one it was given,
/// without what lies above its 40 bits.
pub proof fn lemma_stored_frame(bytes: Seq<u8>, token: int, frame: u64)
    requires
        0 <= token,
        token + LIGHT_BUFFER_ENTRY_SIZE_FRAME_COUNT <= bytes.len(),
    ensures
        stored_frame(with_frame(bytes, token, frame), token) == frame % 0x100_0000_0000,
{
    let b0 = (frame >> 0) & 0xff;
    let b1 = (frame >> 8) & 0xff;
    let b2 = (frame >> 16) & 0xff;
    let b3 = (frame >> 24) & 0xff;
    let b4 = (frame >> 32) & 0xff;
    assert(b0 <= 0xff && b1 <= 0xff && b2 <= 0xff && b3 <= 0xff && b4 <= 0xff && b0 + b1 * 0x100 + b2
        * 0x1_0000 + b3 * 0x100_0000 + b4 * 0x1_0000_0000 == frame % 0x100_0000_0000)
        by (bit_vector)
        requires
            b0 == (frame >> 0) & 0xff,
            b1 == (frame >> 8) & 0xff,
            b2 == (frame >> 16) & 0xff,
            b3 == (frame >> 24) & 0xff,
            b4 == (frame >> 32) & 0xff,
    ;
    let after = with_frame(bytes, token, frame);
    assert(after[token] == frame_byte(frame, 0));
    assert(after[token + 1] == frame_byte(frame, 1));
    assert(after[token + 2] == frame_byte(frame, 2));
    assert(after[token + 3] == frame_byte(frame, 3));
    assert(after[token + 4] == frame_byte(frame, 4));
}

/// One entry of a light table: the six bytes of `bytes` from `token` on.
pub struct LightCell<'a> {
    pub bytes: &'a mut Vec<u8>,
    pub token: usize,
}

impl<'a> LightCell<'a> {
    /// Whether the entry lies within the table.
    pub open spec fn wf(&self) -> bool {
        self.token + LIGHT_BUFFER_ENTRY_SIZE <= self.bytes@.len()
    }

    /// Stores the low five bytes of `frame` as the frame count of the
    /// entry, the lowest byte first.
    pub fn see(&mut self, frame: u64)
        requires
            old(self).wf(),
        ensures
            final(self).token == old(self).token,
            *final(final(self).bytes) == *final(old(self).bytes),
            final(self).bytes@ == with_frame(old(self).bytes@, old(self).token as int, frame),
    {
        let len = self.bytes.len();
        let mut rest: u64 = frame;
        let mut i: usize = 0;
        assert(frame == frame >> 0) by (bit_vector);
        while i < LIGHT_BUFFER_ENTRY_SIZE_FRAME_COUNT
            invariant
                i <= LIGHT_BUFFER_ENTRY_SIZE_FRAME_COUNT,
                self.token == old(self).token,
                *final(self.bytes) == *final(old(self).bytes),
                self.bytes@.len() == old(self).bytes@.len(),
                self.token + LIGHT_BUFFER_ENTRY_SIZE <= self.bytes@.len() <= usize::MAX,
                rest == frame >> ((8 * i) as u64),
                forall|k: int|
                    0 <= k < self.bytes@.len() ==> self.bytes@[k] == if self.token <= k < self.token
                        + i {
                        frame_byte(frame, k - self.token)
                    } else {
                        old(self).bytes@[k]
                    },
            decreases LIGHT_BUFFER_ENTRY_SIZE_FRAME_COUNT - i,
        {
            let low: u64 = rest & 0xff;
            assert(low <= 0xff) by (bit_vector)
                requires
                    low == rest & 0xff,
            ;
            let shift: u64 = (8 * i) as u64;
            assert((frame >> shift) >> 8 == frame >> ((shift + 8) as u64)) by (bit_vector)
                requires
                    shift <= 32,
            ;
            self.bytes[self.token + i] = low as u8;
            rest = rest >> 8;
            i += 1;
        }
        assert(self.bytes@ =~= with_frame(old(self).bytes@, old(self).token as int, frame));
    }

    /// Marks no side of the entry as reached.
    pub fn clear_sides(&mut self)
        requires
            old(self).wf(),
        ensures
            final(self).token == old(self).token,
            *final(final(self).bytes) == *final(old(self).bytes),
            final(self).bytes@ == old(self).bytes@.update(
                old(self).token + LIGHT_BUFFER_OFFSET_SIDE_BITMAP,
                NO_DIRECTIONS_BITMAP,
            ),
    {
        let len = self.bytes.len();
        self.bytes[self.token + LIGHT_BUFFER_OFFSET_SIDE_BITMAP] = NO_DIRECTIONS_BITMAP;
    }

    /// Marks the side `direction` of the entry as reached.
    pub fn see_side(&mut self, direction: Direction)
        requires
            old(self).wf(),
        ensures
            final(self).token == old(self).token,
            *final(final(self).bytes) == *final(old(self).bytes),
            final(self).bytes@ == old(self).bytes@.update(
                old(self).token + LIGHT_BUFFER_OFFSET_SIDE_BITMAP,
                old(self).bytes@[old(self).token + LIGHT_BUFFER_OFFSET_SIDE_BITMAP]
                    | direction.spec_bitmap_raw(),
            ),
    {
        let len = self.bytes.len();
        let at = self.token + LIGHT_BUFFER_OFFSET_SIDE_BITMAP;
        let sides: u8 = self.bytes[at] | direction.bitmap_raw();
        self.bytes[at] = sides;
    }

    /// Marks every side of the entry as reached.
    pub fn see_all_sides(&mut self)
        requires
            old(self).wf(),
        ensures
            final(self).token == old(self).token,
            *final(final(self).bytes) == *final(old(self).bytes),
            final(self).bytes@ == old(self).bytes@.update(
                old(self).token + LIGHT_BUFFER_OFFSET_SIDE_BITMAP,
                ALL_DIRECTIONS_BITMAP,
            ),
    {
        let len = self.bytes.len();
        self.bytes[self.token + LIGHT_BUFFER_OFFSET_SIDE_BITMAP] = ALL_DIRECTIONS_BITMAP;
    }
}

/// The light table of one light in a world that is `width` cells wide.
pub struct LightGrid {
    pub slice: Vec<u8>,
    pub width: u32,
}

impl LightGrid {
    /// Whether an entry starts at `token` and lies within the table.
    pub open spec fn spec_has_entry(&self, token: usize) -> bool {
        token + LIGHT_BUFFER_ENTRY_SIZE <= self.slice@.len()
    }

    /// The entry that starts at `token`.  What is written to the entry is
    /// written to the table.
    pub fn get(&mut self, token: usize) -> (cell: LightCell<'_>)
        requires
            old(self).spec_has_entry(token),
        ensures
            cell.token == token,
            cell.wf(),
            *cell.bytes == old(self).slice,
            final(self).slice == *final(cell.bytes),
            final(self).width == old(self).width,
    {
        LightCell { bytes: &mut self.slice, token }
    }

    /// Place of the entry of the cell `v` in the table.
    pub fn get_token(&self, v: UCoord) -> (token: usize)
        requires
            (v.y * self.width + v.x) * LIGHT_BUFFER_ENTRY_SIZE <= usize::MAX,
        ensures
            token == (v.y * self.width + v.x) * LIGHT_BUFFER_ENTRY_SIZE,
    {
        assert(v.y * self.width <= 0xffff_ffff * 0xffff_ffff) by (nonlinear_arith)
            requires
                0 <= v.y <= 0xffff_ffff,
                0 <= self.width <= 0xffff_ffff,
        ;
        let place: u64 = v.y as u64 * self.width as u64 + v.x as u64;
        assert(place <= place * LIGHT_BUFFER_ENTRY_SIZE) by (nonlinear_arith)
            requires
                0 <= place,
        ;
        place as usize * LIGHT_BUFFER_ENTRY_SIZE
    }

    pub fn see(&mut self, token: usize, time: u64)
        requires
            old(self).spec_has_entry(token),
        ensures
            final(self).width == old(self).width,
            final(self).slice@ == with_frame(old(self).slice@, token as int, time),
    {
        let mut cell = self.get(token);
        cell.see(time);
    }

    pub fn clear_sides(&mut self, token: usize)
        requires
            old(self).spec_has_entry(token),
        ensures
            final(self).width == old(self).width,
            final(self).slice@ == old(self).slice@.update(
                token + LIGHT_BUFFER_OFFSET_SIDE_BITMAP,
                NO_DIRECTIONS_BITMAP,
            ),
    {
        let mut cell = self.get(token);
        cell.clear_sides();
    }

    pub fn see_side(&mut self, token: usize, direction: Direction)
        requires
            old(self).spec_has_entry(token),
        ensures
            final(self).width == old(self).width,
            final(self).slice@ == old(self).slice@.update(
                token + LIGHT_BUFFER_OFFSET_SIDE_BITMAP,
                old(self).slice@[token + LIGHT_BUFFER_OFFSET_SIDE_BITMAP]
                    | direction.spec_bitmap_raw(),
            ),
    {
        let mut cell = self.get(token);
        cell.see_side(direction);
    }

    pub fn see_all_sides(&mut self, token: usize)
        requires
            old(self).spec_has_entry(token),
        ensures
            final(self).width == old(self).width,
            final(self).slice@ == old(self).slice@.update(
                token + LIGHT_BUFFER_OFFSET_SIDE_BITMAP,
                ALL_DIRECTIONS_BITMAP,
            ),
    {
        let mut cell = self.get(token);
        cell.see_all_sides();
    }
}

/// The names and numbers of a table as mathematical values.
pub open spec fn table_view(table: Seq<(&'static str, u32)>) -> Seq<(Seq<char>, u32)> {
    table.map_values(|entry: (&'static str, u32)| (entry.0@, entry.1))
}

/// Whether no name stands twice in `table`.
pub open spec fn distinct_names(table: Seq<(Seq<char>, u32)>) -> bool {
    forall|i: int, j: int|
        0 <= i < table.len() && 0 <= j < table.len() && i != j ==> (#[trigger] table[i]).0 != (
        #[trigger] table[j]).0
}

/// The names of a table.
pub open spec fn table_names(table: Seq<(Seq<char>, u32)>) -> Seq<Seq<char>> {
    table.map_values(|entry: (Seq<char>, u32)| entry.0)
}

/// The numbers of a table.
pub open spec fn table_values(table: Seq<(Seq<char>, u32)>) -> Seq<u32> {
    table.map_values(|entry: (Seq<char>, u32)| entry.1)
}

/// Hands `template` to `handlebars::Handlebars::render_template`, on a
/// registry that leaves the text it puts in unescaped, with the names of
/// `table` as the data.  Nothing is claimed of what comes back: the
/// engine may report an error on any template.
///
/// Only plain templates over plain names are handed over.  Such a
/// template holds no block, partial, decorator, comment or expression
/// with arguments, so the engine finds nothing in it to nest or to
/// repeat.
#[verifier::external_body]
fn render_template(template: &str, table: &Vec<(&'static str, u32)>) -> (r: Option<String>)
    requires
        distinct_names(table_view(table@)),
        plain_names(table_names(table_view(table@))),
        is_plain(template@, table_names(table_view(table@)), 0),
{
    let mut registry = handlebars::Handlebars::new();
    registry.register_escape_fn(handlebars::no_escape);
    let data: std::collections::BTreeMap<&str, u32> = table.iter().copied().collect();
    registry.render_template(template, &data).ok()
}

/// The names and the numbers of `table`, each in a list of their own.
pub fn split_table(table: &Vec<(&'static str, u32)>) -> (r: (Vec<Vec<char>>, Vec<u32>))
    ensures
        names_view(r.0@) == table_names(table_view(table@)),
        r.1@ == table_values(table_view(table@)),
{
    let mut names: Vec<Vec<char>> = Vec::new();
    let mut values: Vec<u32> = Vec::new();
    let mut k: usize = 0;
    while k < table.len()
        invariant
            k <= table@.len(),
            names@.len() == k,
            values@.len() == k,
            forall|a: int| 0 <= a < k ==> (#[trigger] names@[a])@ == table@[a].0@,
            forall|a: int| 0 <= a < k ==> #[trigger] values@[a] == table@[a].1,
        decreases table@.len() - k,
    {
        let entry = table[k];
        names.push(to_chars(entry.0));
        values.push(entry.1);
        k += 1;
    }
    assert(names_view(names@) =~= table_names(table_view(table@)));
    assert(values@ =~= table_values(table_view(table@)));
    (names, values)
}

/// The numbers that the shaders share with this library, by the names
/// under which their templates ask for them.
pub open spec fn spec_shader_table() -> Seq<(Seq<char>, u32)> {
    seq![
        ("FLAGS_ENABLED"@, instance_flags::ENABLED),
        ("FLAGS_SPRITE_EFFECT"@, instance_flags::SPRITE_EFFECT),
        ("DEPTH_FIXED"@, DepthType::Fixed.spec_index()),
        ("DEPTH_GRADIENT"@, DepthType::Gradient.spec_index()),
        ("DEPTH_BOTTOM"@, DepthType::Bottom.spec_index()),
        ("MAX_CELL_TABLE_SIZE"@, MAX_CELL_TABLE_SIZE as u32),
        ("SPRITE_EFFECT_OUTER_WATER"@, 0u32),
    ]
}

/// The numbers that the shaders share with this library, by the names
/// under which their templates ask for them.
pub fn shader_table() -> (table: Vec<(&'static str, u32)>)
    ensures
        table_view(table@) == spec_shader_table(),
        distinct_names(table_view(table@)),
        plain_names(table_names(table_view(table@))),
{
    let mut table: Vec<(&'static str, u32)> = Vec::new();
    table.push(("FLAGS_ENABLED", instance_flags::ENABLED));
    table.push(("FLAGS_SPRITE_EFFECT", instance_flags::SPRITE_EFFECT));
    table.push(("DEPTH_FIXED", DepthType::Fixed.index()));
    table.push(("DEPTH_GRADIENT", DepthType::Gradient.index()));
    table.push(("DEPTH_BOTTOM", DepthType::Bottom.index()));
    table.push(("MAX_CELL_TABLE_SIZE", MAX_CELL_TABLE_SIZE as u32));
    table.push(("SPRITE_EFFECT_OUTER_WATER", SpriteEffect::OuterWater.index()));
    proof {
        reveal_strlit("FLAGS_ENABLED");
        reveal_strlit("FLAGS_SPRITE_EFFECT");
        reveal_strlit("DEPTH_FIXED");
        reveal_strlit("DEPTH_GRADIENT");
        reveal_strlit("DEPTH_BOTTOM");
        reveal_strlit("MAX_CELL_TABLE_SIZE");
        reveal_strlit("SPRITE_EFFECT_OUTER_WATER");
        let names = spec_shader_table();
        assert(table_view(table@) =~= names);
        assert(names[0].0.len() == 13);
        assert(names[1].0.len() == 19);
        assert(names[2].0.len() == 11);
        assert(names[3].0.len() == 14);
        assert(names[4].0.len() == 12);
        assert(names[5].0.len() == 19);
        assert(names[6].0.len() == 25);
        assert(names[1].0[0] == 'F' && names[5].0[0] == 'M');
        assert(distinct_names(names));
        let listed = table_names(names);
        assert(is_plain_name(listed[0]) && is_plain_name(listed[1]) && is_plain_name(listed[2])
            && is_plain_name(listed[3]) && is_plain_name(listed[4]) && is_plain_name(listed[5])
            && is_plain_name(listed[6]));
    }
    table
}

/// Whether `shader` is a plain template over the names of the shader
/// table.
pub open spec fn is_plain_shader(shader: Seq<char>) -> bool {
    is_plain(shader, table_names(spec_shader_table()), 0)
}

/// The text that the plain template `shader` stands for: each tag gives
/// way to the number that the shader table holds for its name.
pub open spec fn shader_text(shader: Seq<char>) -> Seq<char> {
    filled(shader, table_names(spec_shader_table()), table_values(spec_shader_table()), 0)
}

/// What is made of the rendering that the template engine gave for
/// `shader`: it is handed on where `shader` is plain and the rendering is
/// the text that `shader` stands for, and dropped otherwise.
pub fn checked_rendering(shader: &str, rendering: Option<String>) -> (r: Option<String>)
    ensures
        r matches Some(text) ==> rendering matches Some(given) && given@ == text@
            && is_plain_shader(shader@) && text@ == shader_text(shader@),
        r is None ==> rendering is None || !is_plain_shader(shader@) || rendering->0@
            != shader_text(shader@),
{
    let text = match rendering {
        Some(text) => text,
        None => {
            return None;
        },
    };
    let table = shader_table();
    let (names, values) = split_table(&table);
    let template = to_chars(shader);
    if !scan_plain(&template, &names) {
        return None;
    }
    let handed = to_chars(text.as_str());
    if is_filling(&template, &names, &values, &handed) {
        Some(text)
    } else {
        None
    }
}

/// Fills in a shader template: each name of the shader table, written
/// between double braces, gives way to its number.
///
/// Returns nothing where `shader` is not plain.  A plain template is
/// handed to the template engine, and what the engine makes of it is
/// returned where it is the text that the template stands for.
pub fn populate_shader(shader: &str) -> (r: Option<String>)
    ensures
        r matches Some(text) ==> is_plain_shader(shader@) && text@ == shader_text(shader@),
        !is_plain_shader(shader@) ==> r is None,
{
    let table = shader_table();
    let (names, _) = split_table(&table);
    let template = to_chars(shader);
    if !scan_plain(&template, &names) {
        return None;
    }
    let rendering = render_template(shader, &table);
    checked_rendering(shader, rendering)
}

} // verus!
