use vstd::prelude::*;
use crate::content::sprite::{SpriteAnimation, SpriteFrame, TileSprite};

verus! {

#[derive(Debug, Clone, Copy, PartialEq, Eq, Structural, Hash)]
pub enum DoorState {
    Open,
    Closed,
}

#[derive(Debug, Clone, Copy, PartialEq, Eq, Structural, Hash)]
pub enum DoorType {
    Inner,
    Outer,
}

#[derive(Debug, Clone, Copy, PartialEq, Eq, Structural, Hash)]
pub struct DoorInfo {
    pub typ: DoorType,
    pub state: DoorState,
}

/// Time for which each frame of a door animation is shown, in milliseconds.
pub const DOOR_FRAME_MILLIS: u32 = 50;

impl DoorType {
    pub open spec fn spec_open_sprite(self) -> TileSprite {
        match self {
            DoorType::Inner => TileSprite::InnerDoorOpen,
            DoorType::Outer => TileSprite::OuterDoorOpen,
        }
    }

    pub open spec fn spec_closed_sprite(self) -> TileSprite {
        match self {
            DoorType::Inner => TileSprite::InnerDoor,
            DoorType::Outer => TileSprite::OuterDoor,
        }
    }

    pub open spec fn spec_state_sprite(self, state: DoorState) -> TileSprite {
        match state {
            DoorState::Open => self.spec_open_sprite(),
            DoorState::Closed => self.spec_closed_sprite(),
        }
    }

    /// The frames shown while the door swings open: the closed door, then the
    /// open one.
    pub open spec fn spec_open_animation(self) -> Seq<SpriteFrame> {
        seq![
            SpriteFrame { millis: DOOR_FRAME_MILLIS, sprite: self.spec_closed_sprite() },
            SpriteFrame { millis: DOOR_FRAME_MILLIS, sprite: self.spec_open_sprite() },
        ]
    }

    /// The frames shown while the door swings shut: the open door, then the
    /// closed one.
    pub open spec fn spec_close_animation(self) -> Seq<SpriteFrame> {
        seq![
            SpriteFrame { millis: DOOR_FRAME_MILLIS, sprite: self.spec_open_sprite() },
            SpriteFrame { millis: DOOR_FRAME_MILLIS, sprite: self.spec_closed_sprite() },
        ]
    }

    pub fn open_sprite(self) -> (s: TileSprite)
        ensures
            s == self.spec_open_sprite(),
    {
        match self {
            DoorType::Inner => TileSprite::InnerDoorOpen,
            DoorType::Outer => TileSprite::OuterDoorOpen,
        }
    }

    pub fn closed_sprite(self) -> (s: TileSprite)
        ensures
            s == self.spec_closed_sprite(),
    {
        match self {
            DoorType::Inner => TileSprite::InnerDoor,
            DoorType::Outer => TileSprite::OuterDoor,
        }
    }

    pub fn state_sprite(self, state: DoorState) -> (s: TileSprite)
        ensures
            s == self.spec_state_sprite(state),
    {
        match state {
            DoorState::Open => self.open_sprite(),
            DoorState::Closed => self.closed_sprite(),
        }
    }

    pub fn open_animation(self) -> (frames: SpriteAnimation)
        ensures
            frames@ == self.spec_open_animation(),
    {
        let mut frames: Vec<SpriteFrame> = Vec::new();
        frames.push(SpriteFrame { millis: DOOR_FRAME_MILLIS, sprite: self.closed_sprite() });
        frames.push(SpriteFrame { millis: DOOR_FRAME_MILLIS, sprite: self.open_sprite() });
        frames
    }

    pub fn close_animation(self) -> (frames: SpriteAnimation)
        ensures
            frames@ == self.spec_close_animation(),
    {
        let mut frames: Vec<SpriteFrame> = Vec::new();
        frames.push(SpriteFrame { millis: DOOR_FRAME_MILLIS, sprite: self.open_sprite() });
        frames.push(SpriteFrame { millis: DOOR_FRAME_MILLIS, sprite: self.closed_sprite() });
        frames
    }
}

impl DoorInfo {
    pub fn new(typ: DoorType, state: DoorState) -> (d: DoorInfo)
        ensures
            d.typ == typ,
            d.state == state,
    {
        DoorInfo { typ, state }
    }

    pub open spec fn spec_sprite(self) -> TileSprite {
        self.typ.spec_state_sprite(self.state)
    }

    /// The sprite that shows the door in its present state.
    pub fn sprite(self) -> (s: TileSprite)
        ensures
            s == self.spec_sprite(),
    {
        self.typ.state_sprite(self.state)
    }
}

} // verus!
