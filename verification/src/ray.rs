//! Rays: an origin plus a direction, evaluated at a scalar parameter.
//!
//! Over exact integer coordinates a direction cannot be scaled to unit
//! length, so rays keep the direction they are given; unit length is a
//! convention of the sampling pipeline outside the exact model.

use vstd::prelude::*;

use crate::vec3::COORD_LIMIT;
use crate::vec3::Vec3;
use crate::vec3::in_range;
use crate::vec3::lemma_mul_bound;

verus! {

#[derive(Clone, Copy, Debug, PartialEq, Eq, Structural)]
pub struct Ray {
    pub origin: Vec3,
    pub direction: Vec3,
}

/// The point `origin + t * direction`, componentwise as mathematical
/// integers.
pub open spec fn spec_at(r: Ray, t: int) -> (int, int, int) {
    (
        r.origin.x + t * r.direction.x,
        r.origin.y + t * r.direction.y,
        r.origin.z + t * r.direction.z,
    )
}

impl Ray {
    pub fn new(origin: Vec3, direction: Vec3) -> (r: Ray)
        ensures
            r.origin == origin,
            r.direction == direction,
    {
        Ray { origin, direction }
    }

    pub fn origin(&self) -> (r: Vec3)
        ensures
            r == self.origin,
    {
        self.origin
    }

    pub fn direction(&self) -> (r: Vec3)
        ensures
            r == self.direction,
    {
        self.direction
    }

    /// The point reached after travelling `t` along the direction.
    pub fn at(&self, t: i64) -> (r: Vec3)
        requires
            in_range(self.origin),
            in_range(self.direction),
            -COORD_LIMIT <= t <= COORD_LIMIT,
        ensures
            (r.x as int, r.y as int, r.z as int) == spec_at(*self, t as int),
    {
        proof {
            lemma_mul_bound(t as int, COORD_LIMIT as int, self.direction.x as int, COORD_LIMIT as int);
            lemma_mul_bound(t as int, COORD_LIMIT as int, self.direction.y as int, COORD_LIMIT as int);
            lemma_mul_bound(t as int, COORD_LIMIT as int, self.direction.z as int, COORD_LIMIT as int);
        }
        Vec3 {
            x: self.origin.x + t * self.direction.x,
            y: self.origin.y + t * self.direction.y,
            z: self.origin.z + t * self.direction.z,
        }
    }
}

/// Anchors of the parameterisation: at zero the ray is at its origin, and
/// at one it has moved by exactly its direction.
pub proof fn lemma_ray_at_anchors(r: Ray)
    ensures
        spec_at(r, 0) == (r.origin.x as int, r.origin.y as int, r.origin.z as int),
        spec_at(r, 1) == (
            r.origin.x + r.direction.x,
            r.origin.y + r.direction.y,
            r.origin.z + r.direction.z,
        ),
{
}

} // verus!
