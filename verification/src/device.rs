use vstd::prelude::*;

verus! {

/// One controllable light in the home, distinguished by room.
#[derive(Clone, Copy, PartialEq, Eq, Structural, Debug)]
pub enum Light {
    Bedroom1,
    Bedroom2,
    Bathroom1,
    Bathroom2,
    Toilets,
    LivingRoom1,
    LivingRoom2,
    Kitchen,
    Hall,
    Hallway,
}

/// An opaque identifier for one controllable unit. Comparable for equality
/// and usable as a mapping key; immutable once created.
#[derive(Clone, Copy, PartialEq, Eq, Structural, Debug)]
pub enum Device {
    Light(Light),
}

impl Device {
    /// The light this device identifier designates.
    pub open spec fn spec_light(self) -> Light {
        match self {
            Device::Light(l) => l,
        }
    }

    /// Unwraps the identifier to its light.
    pub fn light(self) -> (l: Light)
        ensures
            l == self.spec_light(),
    {
        match self {
            Device::Light(l) => l,
        }
    }
}

} // verus!
