//! Material tags of the exact core.
//!
//! Scattering itself — sampled directions, Schlick reflectance, texture
//! lookups — is floating-point work of the sampling pipeline; the core
//! contributes the reflection formula (`vec3::reflect`) and this marker
//! for the normal-visualising debug material, which shades a surface by
//! its normal and scatters straight back along the incoming ray.

use vstd::prelude::*;

verus! {

/// The normal-visualising debug material: no parameters, no state.
#[derive(Clone, Copy, Debug, PartialEq, Eq, Structural)]
pub struct Normal {}

impl Normal {
    pub fn new() -> (r: Normal)
        ensures
            r == (Normal {  }),
    {
        Normal {  }
    }
}

/// The checker selector: whether the lattice cell at the given integer
/// coordinates is an "even" cell. A two-coordinate checker passes zero
/// for the third coordinate.
pub fn lattice_is_even(x: i64, y: i64, z: i64) -> (r: bool)
    requires
        -0x1000000000000000 <= x <= 0x1000000000000000,
        -0x1000000000000000 <= y <= 0x1000000000000000,
        -0x1000000000000000 <= z <= 0x1000000000000000,
    ensures
        r == ((x + y + z) % 2 == 0),
{
    (x + y + z) % 2 == 0
}

} // verus!
