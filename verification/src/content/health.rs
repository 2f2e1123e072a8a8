use vstd::prelude::*;

verus! {

/// Health of an entity.  A value that is not positive means the entity is
/// dead.
#[derive(Clone, Copy, Debug, PartialEq, Eq, Structural, Hash)]
pub struct HealthInfo {
    pub current: i32,
    pub max: i32,
}

impl HealthInfo {
    pub fn new(current: i32, max: i32) -> (h: HealthInfo)
        ensures
            h.current == current,
            h.max == max,
    {
        HealthInfo { current, max }
    }

    /// Full health with the given capacity.
    pub fn full(max: i32) -> (h: HealthInfo)
        ensures
            h.current == max,
            h.max == max,
    {
        HealthInfo { current: max, max }
    }

    /// The health left after taking `amount` damage.  The current value
    /// stops at the smallest representable value instead of wrapping.
    pub open spec fn spec_reduce(self, amount: u32) -> HealthInfo {
        HealthInfo {
            current: if self.current - amount < i32::MIN {
                i32::MIN
            } else {
                (self.current - amount) as i32
            },
            max: self.max,
        }
    }

    /// The health left after taking `amount` damage.
    pub fn reduce(self, amount: u32) -> (h: HealthInfo)
        ensures
            h == self.spec_reduce(amount),
            self.current - amount >= i32::MIN ==> h.current == self.current - amount,
    {
        let wide: i64 = self.current as i64 - amount as i64;
        let current: i32 = if wide < i32::MIN as i64 {
            i32::MIN
        } else {
            wide as i32
        };
        HealthInfo { current, max: self.max }
    }

    pub open spec fn spec_is_dead(self) -> bool {
        self.current <= 0
    }

    pub fn is_dead(self) -> (dead: bool)
        ensures
            dead == self.spec_is_dead(),
    {
        self.current <= 0
    }
}

} // verus!
