//! Where the sprites lie in the sprite sheet.  Lengths are in pixels.

use vstd::prelude::*;
use crate::content::sprite::{TileSprite, NUM_TILE_SPRITES};

verus! {

/// A size or an offset in pixels.
#[derive(Debug, Clone, Copy, PartialEq, Eq, Structural, Hash)]
pub struct PixelVec {
    pub x: i32,
    pub y: i32,
}

/// A sprite of the top row of the sheet.
#[derive(Debug, Clone, Copy, PartialEq, Eq, Structural, Hash)]
pub struct SpriteLocation {
    /// Where the sprite starts, from the left of the sheet.
    pub position: i32,
    pub size: PixelVec,
    pub offset: PixelVec,
}

/// A run of wall sprites in the top row of the sheet: one for each set of
/// neighbouring walls, in the order of their bitmaps, each `size.x` wide.
#[derive(Debug, Clone, Copy, PartialEq, Eq, Structural, Hash)]
pub struct WallSpriteLocation {
    pub base: i32,
    pub size: PixelVec,
    pub offset: PixelVec,
}

/// How the place of a sprite in the sheet is found.
#[derive(Debug, Clone, Copy, PartialEq, Eq, Structural, Hash)]
pub enum SpriteResolution {
    /// The sprite lies at one place.
    Simple(SpriteLocation),
    /// The sprite is picked by the walls around its cell.
    Wall(WallSpriteLocation),
    /// The sprite shows the top of a wall where a wall stands to the north
    /// of its cell, and the front of the wall elsewhere.
    WallFit { top: SpriteLocation, front: SpriteLocation },
}

/// The resolutions of the sprites, by their index.
pub struct SpriteTable {
    pub resolutions: Vec<Option<SpriteResolution>>,
}

impl PixelVec {
    pub fn new(x: i32, y: i32) -> (v: PixelVec)
        ensures
            v.x == x,
            v.y == y,
    {
        PixelVec { x, y }
    }
}

impl WallSpriteLocation {
    /// Where the sprite for the neighbours `bitmap` starts.
    pub open spec fn spec_position(self, bitmap: u8) -> int {
        self.base + self.size.x * bitmap
    }

    /// Where the sprite for the neighbours `bitmap` starts.
    pub fn position(&self, bitmap: u8) -> (p: i64)
        ensures
            p == self.spec_position(bitmap),
    {
        assert(-0x8000_0000 * 0xff <= self.size.x * bitmap <= 0x7fff_ffff * 0xff)
            by (nonlinear_arith)
            requires
                -0x8000_0000 <= self.size.x <= 0x7fff_ffff,
                0 <= bitmap <= 0xff,
        ;
        self.base as i64 + self.size.x as i64 * bitmap as i64
    }

    pub fn size(&self) -> (size: PixelVec)
        ensures
            size == self.size,
    {
        self.size
    }

    pub fn offset(&self) -> (offset: PixelVec)
        ensures
            offset == self.offset,
    {
        self.offset
    }

    pub fn base(&self) -> (base: i32)
        ensures
            base == self.base,
    {
        self.base
    }
}

impl SpriteTable {
    /// The resolution of `sprite`, if the table has one.
    pub open spec fn spec_get(&self, sprite: TileSprite) -> Option<SpriteResolution> {
        if sprite.spec_index() < self.resolutions@.len() {
            self.resolutions@[sprite.spec_index() as int]
        } else {
            None
        }
    }

    /// A table without resolutions.
    pub fn new() -> (table: SpriteTable)
        ensures
            forall|sprite: TileSprite| table.spec_get(sprite) is None,
    {
        SpriteTable { resolutions: Vec::new() }
    }

    /// The resolution of `sprite`, if the table has one.
    pub fn get(&self, sprite: TileSprite) -> (r: Option<&SpriteResolution>)
        ensures
            r matches Some(resolution) ==> self.spec_get(sprite) == Some(*resolution),
            r is None ==> self.spec_get(sprite) is None,
    {
        let i = sprite.index();
        if i < self.resolutions.len() {
            self.resolutions[i].as_ref()
        } else {
            None
        }
    }

    /// Gives `sprite` the resolution `resolution`.
    pub fn insert(&mut self, sprite: TileSprite, resolution: SpriteResolution)
        ensures
            final(self).spec_get(sprite) == Some(resolution),
            forall|other: TileSprite|
                other != sprite ==> final(self).spec_get(other) == old(self).spec_get(other),
    {
        let i = sprite.index();
        while self.resolutions.len() <= i
            invariant
                i < NUM_TILE_SPRITES,
                self.resolutions@.len() >= old(self).resolutions@.len(),
                forall|k: int|
                    0 <= k < old(self).resolutions@.len() ==> self.resolutions@[k] == old(
                        self,
                    ).resolutions@[k],
                forall|k: int|
                    old(self).resolutions@.len() <= k < self.resolutions@.len()
                        ==> self.resolutions@[k] is None,
            decreases i + 1 - self.resolutions@.len(),
        {
            self.resolutions.push(None);
        }
        self.resolutions.set(i, Some(resolution));
        proof {
            assert forall|other: TileSprite| other != sprite implies self.spec_get(other) == old(
                self,
            ).spec_get(other) by {
                assert(other.spec_index() != sprite.spec_index());
            }
        }
    }
}

} // verus!
