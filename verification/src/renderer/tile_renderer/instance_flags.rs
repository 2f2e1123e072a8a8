use vstd::prelude::*;

verus! {

pub const ENABLED: u32 = 1 << 0;

pub const SPRITE_EFFECT: u32 = 1 << 1;

} // verus!
