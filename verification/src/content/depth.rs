use vstd::prelude::*;
use crate::coord::Milli;

verus! {

/// How the drawing depth of a sprite follows its vertical position.
#[derive(Clone, Copy, Debug, PartialEq, Eq, Structural, Hash)]
pub enum DepthType {
    Fixed,
    Gradient,
    Bottom,
}

#[derive(Clone, Copy, Debug, PartialEq, Eq, Structural, Hash)]
pub struct DepthInfo {
    pub typ: DepthType,
    /// Offset in thousandths of a cell.
    pub offset: Milli,
}

impl DepthType {
    /// Position of the variant in declaration order.
    pub open spec fn spec_index(self) -> u32 {
        match self {
            DepthType::Fixed => 0,
            DepthType::Gradient => 1,
            DepthType::Bottom => 2,
        }
    }

    pub fn index(self) -> (i: u32)
        ensures
            i == self.spec_index(),
    {
        match self {
            DepthType::Fixed => 0,
            DepthType::Gradient => 1,
            DepthType::Bottom => 2,
        }
    }

    /// Depth of this type with no offset.
    pub fn into_info(self) -> (d: DepthInfo)
        ensures
            d == (DepthInfo { typ: self, offset: 0 }),
    {
        DepthInfo { typ: self, offset: 0 }
    }
}

impl DepthInfo {
    pub fn new(typ: DepthType, offset: Milli) -> (d: DepthInfo)
        ensures
            d == (DepthInfo { typ, offset }),
    {
        DepthInfo { typ, offset }
    }

    /// The drawing depth of a sprite at the vertical position
    /// `y_position` in a world that reaches down to `max_y_position`, all
    /// in thousandths of a cell.  A depth at the bottom is the offset
    /// itself.  Any other is the position moved by the offset: where that
    /// lies beyond the world it is the end of the world, and where it lies
    /// above the world it is nothing.
    pub open spec fn spec_resolve(self, y_position: i64, max_y_position: i64) -> i64 {
        match self.typ {
            DepthType::Fixed | DepthType::Gradient => if y_position + self.offset > max_y_position {
                max_y_position
            } else if y_position + self.offset < 0 {
                0
            } else {
                (y_position + self.offset) as i64
            },
            DepthType::Bottom => self.offset as i64,
        }
    }

    /// The drawing depth of a sprite at the vertical position
    /// `y_position` in a world that reaches down to `max_y_position`.
    pub fn resolve(self, y_position: i64, max_y_position: i64) -> (depth: i64)
        ensures
            depth == self.spec_resolve(y_position, max_y_position),
    {
        match self.typ {
            DepthType::Fixed | DepthType::Gradient => {
                let moved: i128 = y_position as i128 + self.offset as i128;
                if moved > max_y_position as i128 {
                    max_y_position
                } else if moved < 0 {
                    0
                } else {
                    moved as i64
                }
            },
            DepthType::Bottom => self.offset as i64,
        }
    }
}

} // verus!
