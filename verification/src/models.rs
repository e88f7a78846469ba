//! Body parts of the box models of heroes and mobs.

use vstd::prelude::*;

verus! {

#[derive(Clone, Copy, PartialEq, Eq, Debug, Structural)]
pub enum PartId {
    Head,
    Torso,
    ArmL,
    ArmR,
    LegL,
    LegR,
    Extra(u8),
}

} // verus!
