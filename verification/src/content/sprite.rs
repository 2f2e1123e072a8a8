use vstd::prelude::*;
use crate::coord::Nanos;

verus! {

pub const NANOS_PER_MILLI: u64 = 1_000_000;

pub const NUM_TILE_SPRITES: usize = 14;

#[derive(Clone, Copy, Debug, PartialEq, Eq, Structural, Hash)]
pub enum TileSprite {
    Angler,
    Crab,
    Snail,
    InnerWall,
    OuterWall,
    InnerFloor,
    InnerWater,
    OuterFloor,
    InnerDoor,
    InnerDoorOpen,
    OuterDoor,
    OuterDoorOpen,
    Window,
    Light,
}

/// One step of a sprite sequence: the sprite, and how long it is shown.
#[derive(Clone, Copy, Debug, PartialEq, Eq, Structural, Hash)]
pub struct SpriteFrame {
    pub millis: u32,
    pub sprite: TileSprite,
}

/// A scripted sprite sequence.
pub type SpriteAnimation = Vec<SpriteFrame>;

impl TileSprite {
    /// Position of the sprite in declaration order.
    pub open spec fn spec_index(self) -> nat {
        match self {
            TileSprite::Angler => 0,
            TileSprite::Crab => 1,
            TileSprite::Snail => 2,
            TileSprite::InnerWall => 3,
            TileSprite::OuterWall => 4,
            TileSprite::InnerFloor => 5,
            TileSprite::InnerWater => 6,
            TileSprite::OuterFloor => 7,
            TileSprite::InnerDoor => 8,
            TileSprite::InnerDoorOpen => 9,
            TileSprite::OuterDoor => 10,
            TileSprite::OuterDoorOpen => 11,
            TileSprite::Window => 12,
            TileSprite::Light => 13,
        }
    }

    /// Position of the sprite in declaration order.
    pub fn index(self) -> (i: usize)
        ensures
            i == self.spec_index(),
            i < NUM_TILE_SPRITES,
    {
        match self {
            TileSprite::Angler => 0,
            TileSprite::Crab => 1,
            TileSprite::Snail => 2,
            TileSprite::InnerWall => 3,
            TileSprite::OuterWall => 4,
            TileSprite::InnerFloor => 5,
            TileSprite::InnerWater => 6,
            TileSprite::OuterFloor => 7,
            TileSprite::InnerDoor => 8,
            TileSprite::InnerDoorOpen => 9,
            TileSprite::OuterDoor => 10,
            TileSprite::OuterDoorOpen => 11,
            TileSprite::Window => 12,
            TileSprite::Light => 13,
        }
    }
}

impl SpriteFrame {
    pub fn new(millis: u32, sprite: TileSprite) -> (f: SpriteFrame)
        ensures
            f.millis == millis,
            f.sprite == sprite,
    {
        SpriteFrame { millis, sprite }
    }

    /// Time for which the frame is shown, in nanoseconds.
    pub open spec fn spec_duration(self) -> nat {
        (self.millis as nat) * 1_000_000
    }

    /// Time for which the frame is shown, in nanoseconds.
    pub fn duration(self) -> (d: Nanos)
        ensures
            d == self.spec_duration(),
    {
        self.millis as u64 * NANOS_PER_MILLI
    }
}

} // verus!
