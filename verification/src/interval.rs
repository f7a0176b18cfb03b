//! Scalar ranges `[min, max]` used for ray-parameter clipping and as the
//! per-axis extents of bounding boxes.
//!
//! Endpoints are exact `i64` coordinates. The unbounded ends that the
//! rendering pipeline represents with infinities are modelled by the
//! extreme representable values, so the canonical empty interval is
//! `(i64::MAX, i64::MIN)` and the universe is `(i64::MIN, i64::MAX)`.

use vstd::prelude::*;

verus! {

/// Magnitude bound on endpoints accepted by the arithmetic operations
/// (`size`, `expand`); comparisons and clamping work on any endpoints.
pub const SPAN_LIMIT: i64 = 0x2000_0000_0000_0000;

#[derive(Clone, Copy, Debug, PartialEq, Eq, Structural)]
pub struct Interval {
    pub min: i64,
    pub max: i64,
}

impl Interval {
    pub fn new(min: i64, max: i64) -> (r: Interval)
        ensures
            r == (Interval { min, max }),
    {
        Interval { min, max }
    }

    /// The canonical empty interval: no coordinate is contained in it.
    pub fn empty() -> (r: Interval)
        ensures
            r.min == i64::MAX,
            r.max == i64::MIN,
            forall|x: i64| !r.spec_contains(x),
    {
        Interval { min: i64::MAX, max: i64::MIN }
    }

    /// The interval containing every coordinate.
    pub fn universe() -> (r: Interval)
        ensures
            r.min == i64::MIN,
            r.max == i64::MAX,
            forall|x: i64| r.spec_contains(x),
    {
        Interval { min: i64::MIN, max: i64::MAX }
    }

    /// Unbounded below: everything up to `max`.
    pub fn left_open(max: i64) -> (r: Interval)
        ensures
            r.min == i64::MIN,
            r.max == max,
    {
        Interval { min: i64::MIN, max }
    }

    /// Unbounded above: everything from `min` on.
    pub fn right_open(min: i64) -> (r: Interval)
        ensures
            r.min == min,
            r.max == i64::MAX,
    {
        Interval { min, max: i64::MAX }
    }

    pub open spec fn spec_contains(self, x: i64) -> bool {
        self.min <= x <= self.max
    }

    pub fn contains(&self, x: i64) -> (r: bool)
        ensures
            r == self.spec_contains(x),
    {
        self.min <= x && x <= self.max
    }

    pub fn surrounds(&self, x: i64) -> (r: bool)
        ensures
            r == (self.min < x < self.max),
    {
        self.min < x && x < self.max
    }

    /// The smallest interval containing both arguments.
    pub fn wrap_intervals(a: &Interval, b: &Interval) -> (r: Interval)
        ensures
            r.min == if a.min <= b.min { a.min } else { b.min },
            r.max == if a.max >= b.max { a.max } else { b.max },
            forall|x: i64| a.spec_contains(x) ==> r.spec_contains(x),
            forall|x: i64| b.spec_contains(x) ==> r.spec_contains(x),
    {
        Interval {
            min: if a.min <= b.min { a.min } else { b.min },
            max: if a.max >= b.max { a.max } else { b.max },
        }
    }

    pub fn size(&self) -> (r: i64)
        requires
            -SPAN_LIMIT <= self.min <= SPAN_LIMIT,
            -SPAN_LIMIT <= self.max <= SPAN_LIMIT,
        ensures
            r == self.max - self.min,
    {
        self.max - self.min
    }

    /// Widens the interval by `delta`, half on each side; `delta` is
    /// truncated to an even padding exactly as integer halving dictates.
    pub fn expand(&self, delta: i64) -> (r: Interval)
        requires
            -SPAN_LIMIT <= self.min <= SPAN_LIMIT,
            -SPAN_LIMIT <= self.max <= SPAN_LIMIT,
            0 <= delta <= SPAN_LIMIT,
        ensures
            r.min == self.min - delta / 2,
            r.max == self.max + delta / 2,
    {
        let padding = delta / 2;
        Interval { min: self.min - padding, max: self.max + padding }
    }

    /// The nearest coordinate of the interval: `x` pulled up to `min`,
    /// then down to `max`.
    pub fn clamp(&self, x: i64) -> (r: i64)
        requires
            self.min <= self.max,
        ensures
            r == if x < self.min { self.min } else if x > self.max { self.max } else { x },
            self.spec_contains(r),
    {
        if x < self.min {
            self.min
        } else if x > self.max {
            self.max
        } else {
            x
        }
    }

    pub open spec fn spec_intersects(self, other: Interval) -> bool {
        exists|x: i64| self.spec_contains(x) && other.spec_contains(x)
    }

    /// Whether the two intervals share a coordinate.
    pub fn intersects(&self, other: &Interval) -> (r: bool)
        ensures
            r == (self.min <= other.max && other.min <= self.max && self.min <= self.max
                && other.min <= other.max),
            r == (self.spec_intersects(*other) && self.min <= self.max && other.min <= other.max),
    {
        let r = self.min <= other.max && other.min <= self.max && self.min <= self.max
            && other.min <= other.max;
        proof {
            if r {
                let w: i64 = if self.min >= other.min {
                    self.min
                } else {
                    other.min
                };
                assert(self.spec_contains(w) && other.spec_contains(w));
            }
        }
        r
    }
}

} // verus!
