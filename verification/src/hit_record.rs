//! Bookkeeping carried along a traversal.
//!
//! The geometric fields of a hit record — point, normal, parameter,
//! texture coordinates — belong to the sampling pipeline; what the exact
//! core owns is the per-traversal statistics counter.

use vstd::prelude::*;

use crate::vec3::Vec3;
use crate::vec3::in_range;
use crate::vec3::spec_dot;

verus! {

/// Counts intersection tests made while resolving one ray.
#[derive(Clone, Copy, Debug, PartialEq, Eq, Structural)]
pub struct HitRecordDebug {
    pub intersection_checks: u32,
}

impl HitRecordDebug {
    pub fn new() -> (r: HitRecordDebug)
        ensures
            r.intersection_checks == 0,
    {
        HitRecordDebug { intersection_checks: 0 }
    }

    /// Records one more intersection test.
    pub fn inc_intersection_checks(&mut self)
        requires
            old(self).intersection_checks < u32::MAX,
        ensures
            final(self).intersection_checks == old(self).intersection_checks + 1,
    {
        self.intersection_checks = self.intersection_checks + 1;
    }
}

/// Orients a primitive's outward normal against the incoming ray: the
/// hit is front-facing exactly when the ray runs against the outward
/// normal, and the recorded normal is flipped otherwise so that it always
/// opposes the ray.
pub fn oriented_normal(ray_direction: &Vec3, outward_normal: &Vec3) -> (r: (Vec3, bool))
    requires
        in_range(*ray_direction),
        in_range(*outward_normal),
    ensures
        r.1 == (spec_dot(*ray_direction, *outward_normal) < 0),
        r.1 ==> r.0 == *outward_normal,
        !r.1 ==> r.0.x == -outward_normal.x && r.0.y == -outward_normal.y && r.0.z
            == -outward_normal.z,
{
    let front_face = ray_direction.dot(*outward_normal) < 0;
    let normal = if front_face {
        *outward_normal
    } else {
        outward_normal.neg()
    };
    (normal, front_face)
}

} // verus!
