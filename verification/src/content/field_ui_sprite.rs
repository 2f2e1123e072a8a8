use vstd::prelude::*;

verus! {

#[derive(Clone, Copy, Debug, PartialEq, Eq, Structural, Hash)]
pub enum FieldUiSprite {
    HealthFull,
    HealthEmpty,
    _Num,
}

pub const NUM_FIELD_UI_SPRITES: usize = 2;

impl FieldUiSprite {
    /// Position of the variant in declaration order.
    pub open spec fn spec_index(self) -> nat {
        match self {
            FieldUiSprite::HealthFull => 0,
            FieldUiSprite::HealthEmpty => 1,
            FieldUiSprite::_Num => 2,
        }
    }

    /// Position of the variant in declaration order; `_Num` closes the list,
    /// so its index is the number of sprites.
    pub fn index(self) -> (i: usize)
        ensures
            i == self.spec_index(),
            self != FieldUiSprite::_Num ==> i < NUM_FIELD_UI_SPRITES,
            self == FieldUiSprite::_Num ==> i == NUM_FIELD_UI_SPRITES,
    {
        match self {
            FieldUiSprite::HealthFull => 0,
            FieldUiSprite::HealthEmpty => 1,
            FieldUiSprite::_Num => 2,
        }
    }
}

} // verus!
