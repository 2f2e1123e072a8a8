//! Grid coordinates and sub-cell positions.

use vstd::prelude::*;

verus! {

/// A span of time in nanoseconds.
pub type Nanos = u64;

/// A scalar in thousandths: `1000` stands for one.
pub type Milli = i32;

/// Number of position units in one cell.
pub const POSITION_UNITS_PER_CELL: i64 = 1000;

/// A signed cell coordinate.
#[derive(Debug, Clone, Copy, PartialEq, Eq, Structural, Hash)]
pub struct Coord {
    pub x: i32,
    pub y: i32,
}

/// An unsigned cell coordinate: a cell of a grid.
#[derive(Debug, Clone, Copy, PartialEq, Eq, Structural, Hash)]
pub struct UCoord {
    pub x: u32,
    pub y: u32,
}

/// A point in the plane, in thousandths of a cell.
#[derive(Debug, Clone, Copy, PartialEq, Eq, Structural, Hash)]
pub struct Position {
    pub x: i64,
    pub y: i64,
}

impl Coord {
    pub fn new(x: i32, y: i32) -> (c: Coord)
        ensures
            c.x == x,
            c.y == y,
    {
        Coord { x, y }
    }

    /// The position of the cell's origin.
    pub open spec fn spec_cast(self) -> Position {
        Position { x: (self.x as int * 1000) as i64, y: (self.y as int * 1000) as i64 }
    }

    /// The position of the cell's origin.
    pub fn cast(self) -> (p: Position)
        ensures
            p == self.spec_cast(),
    {
        Position {
            x: self.x as i64 * POSITION_UNITS_PER_CELL,
            y: self.y as i64 * POSITION_UNITS_PER_CELL,
        }
    }

    /// The coordinate reached from `self` by the step `delta`, where it fits.
    pub fn checked_add(self, delta: Coord) -> (r: Option<Coord>)
        ensures
            r matches Some(c) ==> c.x == self.x + delta.x && c.y == self.y + delta.y,
            r is None <==> !(i32::MIN <= self.x + delta.x <= i32::MAX && i32::MIN <= self.y
                + delta.y <= i32::MAX),
    {
        match (self.x.checked_add(delta.x), self.y.checked_add(delta.y)) {
            (Some(x), Some(y)) => Some(Coord { x, y }),
            _ => None,
        }
    }
}

impl UCoord {
    pub fn new(x: u32, y: u32) -> (c: UCoord)
        ensures
            c.x == x,
            c.y == y,
    {
        UCoord { x, y }
    }
}

impl Position {
    pub fn new(x: i64, y: i64) -> (p: Position)
        ensures
            p.x == x,
            p.y == y,
    {
        Position { x, y }
    }
}

} // verus!
