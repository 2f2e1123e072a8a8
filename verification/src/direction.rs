//! Compass directions on the grid.  North is towards smaller `y`.

use vstd::prelude::*;
use crate::coord::Coord;

verus! {

pub const ALL_DIRECTIONS_BITMAP: u8 = 0xff;

pub const NO_DIRECTIONS_BITMAP: u8 = 0;

#[derive(Debug, Clone, Copy, PartialEq, Eq, Structural, Hash)]
pub enum Direction {
    North,
    NorthEast,
    East,
    SouthEast,
    South,
    SouthWest,
    West,
    NorthWest,
}

#[derive(Debug, Clone, Copy, PartialEq, Eq, Structural, Hash)]
pub enum CardinalDirection {
    North,
    East,
    South,
    West,
}

impl Direction {
    /// Position of the direction in clockwise order, starting at north.
    pub open spec fn spec_index(self) -> nat {
        match self {
            Direction::North => 0,
            Direction::NorthEast => 1,
            Direction::East => 2,
            Direction::SouthEast => 3,
            Direction::South => 4,
            Direction::SouthWest => 5,
            Direction::West => 6,
            Direction::NorthWest => 7,
        }
    }

    /// The byte with only the direction's own bit set.
    pub open spec fn spec_bitmap_raw(self) -> u8 {
        match self {
            Direction::North => 0x01,
            Direction::NorthEast => 0x02,
            Direction::East => 0x04,
            Direction::SouthEast => 0x08,
            Direction::South => 0x10,
            Direction::SouthWest => 0x20,
            Direction::West => 0x40,
            Direction::NorthWest => 0x80,
        }
    }

    /// The byte with only the direction's own bit set: bit `spec_index()`.
    pub fn bitmap_raw(self) -> (b: u8)
        ensures
            b == self.spec_bitmap_raw(),
            b == 1u8 << (self.spec_index() as u8),
    {
        let b: u8 = match self {
            Direction::North => 0x01,
            Direction::NorthEast => 0x02,
            Direction::East => 0x04,
            Direction::SouthEast => 0x08,
            Direction::South => 0x10,
            Direction::SouthWest => 0x20,
            Direction::West => 0x40,
            Direction::NorthWest => 0x80,
        };
        assert(0x01u8 == 1u8 << 0u8 && 0x02u8 == 1u8 << 1u8 && 0x04u8 == 1u8 << 2u8 && 0x08u8 == 1u8
            << 3u8 && 0x10u8 == 1u8 << 4u8 && 0x20u8 == 1u8 << 5u8 && 0x40u8 == 1u8 << 6u8 && 0x80u8
            == 1u8 << 7u8) by (bit_vector);
        b
    }
}

/// A set of directions, one bit for each.
#[derive(Debug, Clone, Copy, PartialEq, Eq, Structural, Hash)]
pub struct DirectionBitmap {
    pub raw: u8,
}

impl DirectionBitmap {
    pub fn new(raw: u8) -> (b: DirectionBitmap)
        ensures
            b.raw == raw,
    {
        DirectionBitmap { raw }
    }

    /// Whether the bit of `direction` is set.
    pub open spec fn spec_has(self, direction: Direction) -> bool {
        self.raw & direction.spec_bitmap_raw() != 0
    }

    /// Whether `direction` is in the set.
    pub fn has(self, direction: Direction) -> (b: bool)
        ensures
            b == self.spec_has(direction),
    {
        self.raw & direction.bitmap_raw() != 0
    }

    pub fn bitmap_raw(self) -> (raw: u8)
        ensures
            raw == self.raw,
    {
        self.raw
    }
}

impl CardinalDirection {
    /// Position of the direction in clockwise order, starting at north.
    pub open spec fn spec_index(self) -> nat {
        match self {
            CardinalDirection::North => 0,
            CardinalDirection::East => 1,
            CardinalDirection::South => 2,
            CardinalDirection::West => 3,
        }
    }

    pub open spec fn spec_opposite(self) -> CardinalDirection {
        match self {
            CardinalDirection::North => CardinalDirection::South,
            CardinalDirection::East => CardinalDirection::West,
            CardinalDirection::South => CardinalDirection::North,
            CardinalDirection::West => CardinalDirection::East,
        }
    }

    /// The unit step taken by moving one cell in this direction.
    pub open spec fn spec_vector(self) -> Coord {
        match self {
            CardinalDirection::North => Coord { x: 0, y: -1i32 },
            CardinalDirection::East => Coord { x: 1, y: 0 },
            CardinalDirection::South => Coord { x: 0, y: 1 },
            CardinalDirection::West => Coord { x: -1i32, y: 0 },
        }
    }

    pub fn opposite(self) -> (d: CardinalDirection)
        ensures
            d == self.spec_opposite(),
    {
        match self {
            CardinalDirection::North => CardinalDirection::South,
            CardinalDirection::East => CardinalDirection::West,
            CardinalDirection::South => CardinalDirection::North,
            CardinalDirection::West => CardinalDirection::East,
        }
    }

    /// The unit step taken by moving one cell in this direction.
    pub fn vector(self) -> (v: Coord)
        ensures
            v == self.spec_vector(),
    {
        match self {
            CardinalDirection::North => Coord { x: 0, y: -1 },
            CardinalDirection::East => Coord { x: 1, y: 0 },
            CardinalDirection::South => Coord { x: 0, y: 1 },
            CardinalDirection::West => Coord { x: -1, y: 0 },
        }
    }

    /// The four cardinal directions in clockwise order, starting at north.
    pub fn all() -> (ds: [CardinalDirection; 4])
        ensures
            ds@ == seq![
                CardinalDirection::North,
                CardinalDirection::East,
                CardinalDirection::South,
                CardinalDirection::West,
            ],
    {
        [
            CardinalDirection::North,
            CardinalDirection::East,
            CardinalDirection::South,
            CardinalDirection::West,
        ]
    }
}

} // verus!
