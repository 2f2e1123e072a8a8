//! The component payloads and the reactions built from them.

pub mod animation;
pub mod change_desc;
pub mod depth;
pub mod door;
pub mod field_ui;
pub mod field_ui_sprite;
pub mod health;
pub mod light;
pub mod sprite;
pub mod sprite_effect;
