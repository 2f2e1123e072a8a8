use vstd::prelude::*;

verus! {

pub const MAX_NUM_INSTANCES: usize = 65536;

pub const MAX_NUM_LIGHTS: usize = 32;

pub const MAX_CELL_TABLE_SIZE: usize = 16384;

/// Bytes of the frame count of one entry: an unsigned number of 40 bits.
pub const TBO_VISION_FRAME_COUNT_SIZE: usize = 5;

/// Bytes of the side bitmap of one entry.
pub const TBO_VISION_BITMAP_SIZE: usize = 1;

pub const TBO_VISION_BITMAP_OFFSET: usize = TBO_VISION_FRAME_COUNT_SIZE;

pub const TBO_VISION_ENTRY_SIZE: usize = TBO_VISION_FRAME_COUNT_SIZE + TBO_VISION_BITMAP_SIZE;

pub const TBO_VISION_BUFFER_SIZE: usize = TBO_VISION_ENTRY_SIZE * MAX_CELL_TABLE_SIZE;

pub const LIGHT_BUFFER_SIZE: usize = TBO_VISION_BUFFER_SIZE * MAX_NUM_LIGHTS;

} // verus!
