use vstd::prelude::*;

verus! {

/// Where the overlays of an entity are drawn, in pixels above its sprite.
#[derive(Clone, Copy, Debug, PartialEq, Eq, Structural, Hash)]
pub struct FieldUiOffsets {
    pub health_vertical: i32,
}

} // verus!
