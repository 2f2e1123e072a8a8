//! What the simulation and a front end tell each other.

use vstd::prelude::*;

verus! {

/// The cells that a front end shows, as bounds on both axes.
#[derive(Debug, Clone, Copy, PartialEq, Eq)]
pub struct VisibleRange {
    pub x_min: i32,
    pub x_max: i32,
    pub y_min: i32,
    pub y_max: i32,
}

impl Default for VisibleRange {
    /// The range that holds only the origin.
    fn default() -> (r: Self)
        ensures
            r.x_min == 0,
            r.x_max == 0,
            r.y_min == 0,
            r.y_max == 0,
    {
        Self { x_min: 0, x_max: 0, y_min: 0, y_max: 0 }
    }
}

} // verus!
