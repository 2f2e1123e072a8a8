//! What the presentation layer keeps per cell and per frame.

pub mod sizes;
pub mod sprite_sheet;
pub mod template;
pub mod tile_renderer;
