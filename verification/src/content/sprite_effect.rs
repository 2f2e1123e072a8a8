use vstd::prelude::*;
use crate::coord::Milli;

verus! {

#[derive(Clone, Copy, Debug, PartialEq, Eq, Structural, Hash)]
pub enum SpriteEffect {
    OuterWater,
}

/// An effect drawn over a sprite, with its parameters.
#[derive(Clone, Copy, Debug, PartialEq, Eq, Structural, Hash)]
pub enum SpriteEffectInfo {
    /// Rippling water: the number of steps, and the darkest and the
    /// brightest level in thousandths.
    Water { steps: u32, min: Milli, max: Milli },
}

impl SpriteEffect {
    /// Position of the variant in declaration order.
    pub fn index(self) -> (i: u32)
        ensures
            i == 0,
    {
        match self {
            SpriteEffect::OuterWater => 0,
        }
    }
}

impl SpriteEffectInfo {
    pub fn water(steps: u32, min: Milli, max: Milli) -> (e: SpriteEffectInfo)
        ensures
            e == (SpriteEffectInfo::Water { steps, min, max }),
    {
        SpriteEffectInfo::Water { steps, min, max }
    }

    pub fn effect(self) -> (e: SpriteEffect)
        ensures
            e == SpriteEffect::OuterWater,
    {
        match self {
            SpriteEffectInfo::Water { .. } => SpriteEffect::OuterWater,
        }
    }
}

} // verus!
