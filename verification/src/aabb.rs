//! Axis-aligned bounding boxes over exact integer coordinates.
//!
//! A box is a min and a max corner; wrapping operations fold per-axis
//! minima and maxima and are proved to produce the smallest box containing
//! their inputs. The longest-axis query ties exactly as the split policy
//! of the hierarchy expects: X beats Y and Z, then Y beats Z.

use vstd::prelude::*;

use crate::interval::Interval;
use crate::interval::SPAN_LIMIT;
use crate::vec3::Vec3;

verus! {

#[derive(Clone, Copy, Debug, PartialEq, Eq, Structural)]
pub enum Axis {
    X,
    Y,
    Z,
}

impl Axis {
    /// The axis with the given index; indices past two indicate a
    /// construction bug, so they are ruled out rather than handled.
    pub fn from_idx(idx: usize) -> (r: Axis)
        requires
            idx < 3,
        ensures
            r == (if idx == 0 {
                Axis::X
            } else if idx == 1 {
                Axis::Y
            } else {
                Axis::Z
            }),
    {
        match idx {
            0 => Axis::X,
            1 => Axis::Y,
            _ => Axis::Z,
        }
    }

    pub fn idx(&self) -> (r: usize)
        ensures
            r == (match self {
                Axis::X => 0usize,
                Axis::Y => 1usize,
                Axis::Z => 2usize,
            }),
            r < 3,
    {
        match self {
            Axis::X => 0,
            Axis::Y => 1,
            Axis::Z => 2,
        }
    }
}

#[derive(Clone, Copy, Debug, PartialEq, Eq, Structural)]
pub struct Aabb {
    pub min: Vec3,
    pub max: Vec3,
}

/// The box's coordinate along `axis`, taken from `corner` (its min or max
/// corner).
pub open spec fn coord(v: Vec3, axis: Axis) -> i64 {
    match axis {
        Axis::X => v.x,
        Axis::Y => v.y,
        Axis::Z => v.z,
    }
}

impl Aabb {
    /// Whether the point lies inside the box on every axis.
    pub open spec fn spec_contains_point(self, p: Vec3) -> bool {
        &&& self.min.x <= p.x <= self.max.x
        &&& self.min.y <= p.y <= self.max.y
        &&& self.min.z <= p.z <= self.max.z
    }

    /// Whether `inner` lies inside `self` on every axis.
    pub open spec fn spec_contains_box(self, inner: Aabb) -> bool {
        &&& self.min.x <= inner.min.x && inner.max.x <= self.max.x
        &&& self.min.y <= inner.min.y && inner.max.y <= self.max.y
        &&& self.min.z <= inner.min.z && inner.max.z <= self.max.z
    }

    /// Both corners are ordered, so the box holds at least one point.
    pub open spec fn spec_wf(self) -> bool {
        &&& self.min.x <= self.max.x
        &&& self.min.y <= self.max.y
        &&& self.min.z <= self.max.z
    }

    /// Every coordinate of both corners is within `SPAN_LIMIT`, so the
    /// extent arithmetic below stays exact.
    pub open spec fn spec_in_span(self) -> bool {
        &&& -SPAN_LIMIT <= self.min.x <= SPAN_LIMIT
        &&& -SPAN_LIMIT <= self.min.y <= SPAN_LIMIT
        &&& -SPAN_LIMIT <= self.min.z <= SPAN_LIMIT
        &&& -SPAN_LIMIT <= self.max.x <= SPAN_LIMIT
        &&& -SPAN_LIMIT <= self.max.y <= SPAN_LIMIT
        &&& -SPAN_LIMIT <= self.max.z <= SPAN_LIMIT
    }

    pub fn new(min: Vec3, max: Vec3) -> (r: Aabb)
        ensures
            r == (Aabb { min, max }),
    {
        Aabb { min, max }
    }

    /// The canonical empty box: it contains no point, so wrapping it with
    /// anything is the identity.
    pub fn empty() -> (r: Aabb)
        ensures
            r.min == (Vec3 { x: i64::MAX, y: i64::MAX, z: i64::MAX }),
            r.max == (Vec3 { x: i64::MIN, y: i64::MIN, z: i64::MIN }),
            forall|p: Vec3| !r.spec_contains_point(p),
    {
        Aabb {
            min: Vec3 { x: i64::MAX, y: i64::MAX, z: i64::MAX },
            max: Vec3 { x: i64::MIN, y: i64::MIN, z: i64::MIN },
        }
    }

    /// The smallest box containing the two points.
    pub fn wrap_points(a: &Vec3, b: &Vec3) -> (r: Aabb)
        ensures
            r.min.x == if a.x <= b.x { a.x } else { b.x },
            r.min.y == if a.y <= b.y { a.y } else { b.y },
            r.min.z == if a.z <= b.z { a.z } else { b.z },
            r.max.x == if a.x >= b.x { a.x } else { b.x },
            r.max.y == if a.y >= b.y { a.y } else { b.y },
            r.max.z == if a.z >= b.z { a.z } else { b.z },
            r.spec_contains_point(*a),
            r.spec_contains_point(*b),
            r.spec_wf(),
    {
        Aabb {
            min: Vec3 {
                x: if a.x <= b.x { a.x } else { b.x },
                y: if a.y <= b.y { a.y } else { b.y },
                z: if a.z <= b.z { a.z } else { b.z },
            },
            max: Vec3 {
                x: if a.x >= b.x { a.x } else { b.x },
                y: if a.y >= b.y { a.y } else { b.y },
                z: if a.z >= b.z { a.z } else { b.z },
            },
        }
    }

    /// The smallest box containing both boxes; in particular it contains
    /// every point that either argument contains.
    pub fn wrap_boxes(box0: &Aabb, box1: &Aabb) -> (r: Aabb)
        ensures
            r.min.x == if box0.min.x <= box1.min.x { box0.min.x } else { box1.min.x },
            r.min.y == if box0.min.y <= box1.min.y { box0.min.y } else { box1.min.y },
            r.min.z == if box0.min.z <= box1.min.z { box0.min.z } else { box1.min.z },
            r.max.x == if box0.max.x >= box1.max.x { box0.max.x } else { box1.max.x },
            r.max.y == if box0.max.y >= box1.max.y { box0.max.y } else { box1.max.y },
            r.max.z == if box0.max.z >= box1.max.z { box0.max.z } else { box1.max.z },
            r.spec_contains_box(*box0),
            r.spec_contains_box(*box1),
            forall|p: Vec3| box0.spec_contains_point(p) ==> r.spec_contains_point(p),
            forall|p: Vec3| box1.spec_contains_point(p) ==> r.spec_contains_point(p),
    {
        Aabb {
            min: Vec3 {
                x: if box0.min.x <= box1.min.x { box0.min.x } else { box1.min.x },
                y: if box0.min.y <= box1.min.y { box0.min.y } else { box1.min.y },
                z: if box0.min.z <= box1.min.z { box0.min.z } else { box1.min.z },
            },
            max: Vec3 {
                x: if box0.max.x >= box1.max.x { box0.max.x } else { box1.max.x },
                y: if box0.max.y >= box1.max.y { box0.max.y } else { box1.max.y },
                z: if box0.max.z >= box1.max.z { box0.max.z } else { box1.max.z },
            },
        }
    }

    /// The smallest box containing the triangle's three vertices.
    pub fn wrap_triangle(vertices: &[Vec3; 3]) -> (r: Aabb)
        ensures
            r.spec_contains_point(vertices[0]),
            r.spec_contains_point(vertices[1]),
            r.spec_contains_point(vertices[2]),
            forall|b: Aabb|
                (b.spec_contains_point(vertices[0]) && b.spec_contains_point(vertices[1])
                    && b.spec_contains_point(vertices[2])) ==> b.spec_contains_box(r),
    {
        let first = Self::wrap_points(&vertices[0], &vertices[1]);
        let second = Self::wrap_points(&vertices[1], &vertices[2]);
        Self::wrap_boxes(&first, &second)
    }

    /// The smallest box containing every box of `objects[start..end)`.
    /// An empty range wraps to the canonical empty box.
    pub fn wrap_range(objects: &Vec<Aabb>, start: usize, end: usize) -> (r: Aabb)
        requires
            start <= end <= objects@.len(),
        ensures
            forall|i: int| start <= i < end ==> r.spec_contains_box(objects@[i]),
            start == end ==> r == Self::empty_spec(),
            forall|b: Aabb|
                (forall|i: int| start <= i < end ==> b.spec_contains_box(#[trigger] objects@[i]))
                    ==> (start == end || #[trigger] b.spec_contains_box(r)),
    {
        if start == end {
            return Self::empty();
        }
        let mut r = objects[start];
        let mut i = start + 1;
        while i < end
            invariant
                start < i <= end <= objects@.len(),
                forall|j: int| start <= j < i ==> r.spec_contains_box(objects@[j]),
                forall|b: Aabb|
                    (forall|j: int|
                        start <= j < i ==> b.spec_contains_box(#[trigger] objects@[j])) ==> (
                    #[trigger] b.spec_contains_box(r)),
            decreases end - i,
        {
            let ghost r0 = r;
            r = Self::wrap_boxes(&r, &objects[i]);
            proof {
                assert forall|b: Aabb|
                    (forall|j: int|
                        start <= j < i + 1 ==> b.spec_contains_box(
                            #[trigger] objects@[j],
                        )) implies (#[trigger] b.spec_contains_box(r)) by {
                    assert(b.spec_contains_box(r0));
                    assert(b.spec_contains_box(objects@[i as int]));
                }
            }
            i = i + 1;
        }
        r
    }

    /// What `empty` returns, for use in contracts.
    pub open spec fn empty_spec() -> Aabb {
        Aabb {
            min: Vec3 { x: i64::MAX, y: i64::MAX, z: i64::MAX },
            max: Vec3 { x: i64::MIN, y: i64::MIN, z: i64::MIN },
        }
    }

    /// The smallest box containing every box of the list.
    pub fn wrap_objects(objects: &Vec<Aabb>) -> (r: Aabb)
        ensures
            forall|i: int| 0 <= i < objects@.len() ==> r.spec_contains_box(objects@[i]),
            objects@.len() == 0 ==> r == Self::empty_spec(),
            forall|b: Aabb|
                (forall|i: int|
                    0 <= i < objects@.len() ==> b.spec_contains_box(#[trigger] objects@[i])) ==> (
                objects@.len() == 0 || #[trigger] b.spec_contains_box(r)),
    {
        Self::wrap_range(objects, 0, objects.len())
    }

    /// The box's extent along `n` as an interval.
    pub fn axis(&self, n: &Axis) -> (r: Interval)
        ensures
            r.min == coord(self.min, *n),
            r.max == coord(self.max, *n),
    {
        match n {
            Axis::X => Interval { min: self.min.x, max: self.max.x },
            Axis::Y => Interval { min: self.min.y, max: self.max.y },
            Axis::Z => Interval { min: self.min.z, max: self.max.z },
        }
    }

    pub fn x(&self) -> (r: Interval)
        ensures
            r.min == self.min.x,
            r.max == self.max.x,
    {
        self.axis(&Axis::X)
    }

    pub fn y(&self) -> (r: Interval)
        ensures
            r.min == self.min.y,
            r.max == self.max.y,
    {
        self.axis(&Axis::Y)
    }

    pub fn z(&self) -> (r: Interval)
        ensures
            r.min == self.min.z,
            r.max == self.max.z,
    {
        self.axis(&Axis::Z)
    }

    /// The extent of the box along `axis`.
    pub open spec fn spec_size(self, axis: Axis) -> int {
        coord(self.max, axis) - coord(self.min, axis)
    }

    /// The axis with the largest extent; X wins ties with Y and Z, and Y
    /// wins ties with Z.
    pub fn longest_axis(&self) -> (r: Axis)
        ensures
            r == (if self.spec_size(Axis::X) > self.spec_size(Axis::Y) && self.spec_size(
                Axis::X,
            ) > self.spec_size(Axis::Z) {
                Axis::X
            } else if self.spec_size(Axis::Y) > self.spec_size(Axis::Z) {
                Axis::Y
            } else {
                Axis::Z
            }),
    {
        let x_len = self.max.x as i128 - self.min.x as i128;
        let y_len = self.max.y as i128 - self.min.y as i128;
        let z_len = self.max.z as i128 - self.min.z as i128;
        if x_len > y_len && x_len > z_len {
            Axis::X
        } else if y_len > z_len {
            Axis::Y
        } else {
            Axis::Z
        }
    }

    /// The midpoint of the box, each coordinate halved toward the min
    /// corner.
    pub fn center(&self) -> (r: Vec3)
        requires
            self.spec_wf(),
            self.spec_in_span(),
        ensures
            r.x == self.min.x + (self.max.x - self.min.x) / 2,
            r.y == self.min.y + (self.max.y - self.min.y) / 2,
            r.z == self.min.z + (self.max.z - self.min.z) / 2,
    {
        Vec3 {
            x: self.min.x + (self.max.x - self.min.x) / 2,
            y: self.min.y + (self.max.y - self.min.y) / 2,
            z: self.min.z + (self.max.z - self.min.z) / 2,
        }
    }

    /// The product of the three extents. Coordinates are held to a
    /// tighter bound than the other operations need so that the product
    /// stays exact.
    pub fn volume(&self) -> (r: u128)
        requires
            self.spec_wf(),
            -0x10000000000 <= self.min.x && self.max.x <= 0x10000000000,
            -0x10000000000 <= self.min.y && self.max.y <= 0x10000000000,
            -0x10000000000 <= self.min.z && self.max.z <= 0x10000000000,
        ensures
            r == self.spec_size(Axis::X) * self.spec_size(Axis::Y) * self.spec_size(Axis::Z),
    {
        let x = (self.max.x - self.min.x) as u128;
        let y = (self.max.y - self.min.y) as u128;
        let z = (self.max.z - self.min.z) as u128;
        proof {
            assert(x * y <= 0x400000000000000000000u128 && x * y * z
                <= 0x8000000000000000000000000000000u128) by (nonlinear_arith)
                requires
                    0 <= x <= 0x20000000000u128,
                    0 <= y <= 0x20000000000u128,
                    0 <= z <= 0x20000000000u128,
            ;
        }
        x * y * z
    }

    /// Twice the sum of the pairwise products of the extents, the measure
    /// the split heuristic scores candidate partitions with.
    pub fn surface_area(&self) -> (r: u128)
        requires
            self.spec_wf(),
            self.spec_in_span(),
        ensures
            r == 2 * (self.spec_size(Axis::X) * self.spec_size(Axis::Y) + self.spec_size(Axis::Y)
                * self.spec_size(Axis::Z) + self.spec_size(Axis::Z) * self.spec_size(Axis::X)),
    {
        let x = (self.max.x - self.min.x) as u128;
        let y = (self.max.y - self.min.y) as u128;
        let z = (self.max.z - self.min.z) as u128;
        proof {
            assert(x * y + y * z + z * x <= 0x30000000000000000000000000000000u128)
                by (nonlinear_arith)
                requires
                    0 <= x <= 0x4000000000000000u128,
                    0 <= y <= 0x4000000000000000u128,
                    0 <= z <= 0x4000000000000000u128,
            ;
        }
        2 * (x * y + y * z + z * x)
    }

    /// Whether the two boxes share a point.
    pub fn intersects(&self, other: &Aabb) -> (r: bool)
        ensures
            r == self.spec_intersects(*other),
    {
        self.min.x <= other.max.x && other.min.x <= self.max.x && self.min.y <= other.max.y
            && other.min.y <= self.max.y && self.min.z <= other.max.z && other.min.z <= self.max.z
    }

    /// The boxes overlap on every axis. For well-formed boxes this is
    /// exactly "some point lies in both".
    pub open spec fn spec_intersects(self, other: Aabb) -> bool {
        &&& self.min.x <= other.max.x && other.min.x <= self.max.x
        &&& self.min.y <= other.max.y && other.min.y <= self.max.y
        &&& self.min.z <= other.max.z && other.min.z <= self.max.z
    }

    pub fn contains_point(&self, p: &Vec3) -> (r: bool)
        ensures
            r == self.spec_contains_point(*p),
    {
        self.min.x <= p.x && p.x <= self.max.x && self.min.y <= p.y && p.y <= self.max.y
            && self.min.z <= p.z && p.z <= self.max.z
    }
}

/// Containment is transitive through intersection: if the outer box
/// contains the inner one, anything the inner box meets, the outer box
/// meets too.
pub proof fn lemma_contained_intersects(outer: Aabb, inner: Aabb, query: Aabb)
    requires
        outer.spec_contains_box(inner),
        inner.spec_intersects(query),
    ensures
        outer.spec_intersects(query),
{
}

/// The box wrapped around two points is minimal: any box containing both
/// points contains it.
pub proof fn lemma_wrap_points_minimal(a: Vec3, b: Vec3, w: Aabb, other: Aabb)
    requires
        w.min.x == if a.x <= b.x { a.x } else { b.x },
        w.min.y == if a.y <= b.y { a.y } else { b.y },
        w.min.z == if a.z <= b.z { a.z } else { b.z },
        w.max.x == if a.x >= b.x { a.x } else { b.x },
        w.max.y == if a.y >= b.y { a.y } else { b.y },
        w.max.z == if a.z >= b.z { a.z } else { b.z },
        other.spec_contains_point(a),
        other.spec_contains_point(b),
    ensures
        other.spec_contains_box(w),
{
}

/// The box wrapped around two boxes contains every point that either of
/// them contains, and is minimal among boxes that do.
pub proof fn lemma_wrap_boxes_cover(box0: Aabb, box1: Aabb, w: Aabb, p: Vec3)
    requires
        w.min.x == if box0.min.x <= box1.min.x { box0.min.x } else { box1.min.x },
        w.min.y == if box0.min.y <= box1.min.y { box0.min.y } else { box1.min.y },
        w.min.z == if box0.min.z <= box1.min.z { box0.min.z } else { box1.min.z },
        w.max.x == if box0.max.x >= box1.max.x { box0.max.x } else { box1.max.x },
        w.max.y == if box0.max.y >= box1.max.y { box0.max.y } else { box1.max.y },
        w.max.z == if box0.max.z >= box1.max.z { box0.max.z } else { box1.max.z },
        box0.spec_contains_point(p) || box1.spec_contains_point(p),
    ensures
        w.spec_contains_point(p),
{
}

} // verus!
