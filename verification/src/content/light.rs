use vstd::prelude::*;
use crate::coord::Milli;

verus! {

/// A light source carried by an entity.  Intensity, height and the three
/// colour channels are in thousandths; the range is in cells.
#[derive(Clone, Copy, Debug, PartialEq, Eq, Structural, Hash)]
pub struct LightInfo {
    pub intensity: Milli,
    pub range: u32,
    pub height: Milli,
    pub red: Milli,
    pub green: Milli,
    pub blue: Milli,
}

impl LightInfo {
    pub fn new(intensity: Milli, range: u32, height: Milli, red: Milli, green: Milli, blue: Milli) -> (l:
        LightInfo)
        ensures
            l == (LightInfo { intensity, range, height, red, green, blue }),
    {
        LightInfo { intensity, range, height, red, green, blue }
    }
}

} // verus!
