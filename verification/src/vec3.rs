//! Three-component vectors over exact integer coordinates.
//!
//! Points, free vectors and colors all share this one representation, as
//! they do in the rendering pipeline; only naming distinguishes them.
//! Coordinates are plain `i64` values, so every operation here is exact:
//! the contracts state the textbook formulas and the code meets them with
//! no rounding.

use vstd::prelude::*;

verus! {

/// Components may not exceed this magnitude when handed to the arithmetic
/// operations below; the bound keeps every intermediate product of the
/// reflection formula inside `i64`.
pub const COORD_LIMIT: i64 = 524288;

#[derive(Clone, Copy, Debug, PartialEq, Eq, Structural)]
pub struct Vec3 {
    pub x: i64,
    pub y: i64,
    pub z: i64,
}

/// All three components lie within `COORD_LIMIT` in magnitude.
pub open spec fn in_range(v: Vec3) -> bool {
    &&& -COORD_LIMIT <= v.x <= COORD_LIMIT
    &&& -COORD_LIMIT <= v.y <= COORD_LIMIT
    &&& -COORD_LIMIT <= v.z <= COORD_LIMIT
}

/// The dot product as a mathematical integer.
pub open spec fn spec_dot(a: Vec3, b: Vec3) -> int {
    a.x * b.x + a.y * b.y + a.z * b.z
}

/// A product of factors bounded by `ma` and `mb` in magnitude is bounded
/// by `ma * mb`.
pub(crate) proof fn lemma_mul_bound(a: int, ma: int, b: int, mb: int)
    by (nonlinear_arith)
    requires
        0 <= ma,
        0 <= mb,
        -ma <= a <= ma,
        -mb <= b <= mb,
    ensures
        -(ma * mb) <= a * b <= ma * mb,
{
}

/// The dot product of two vectors within `COORD_LIMIT` is bounded by three
/// times the squared limit.
pub proof fn lemma_dot_bound(a: Vec3, b: Vec3)
    requires
        in_range(a),
        in_range(b),
    ensures
        -3 * (COORD_LIMIT as int * COORD_LIMIT as int) <= spec_dot(a, b) <= 3 * (
        COORD_LIMIT as int * COORD_LIMIT as int),
{
    lemma_mul_bound(a.x as int, COORD_LIMIT as int, b.x as int, COORD_LIMIT as int);
    lemma_mul_bound(a.y as int, COORD_LIMIT as int, b.y as int, COORD_LIMIT as int);
    lemma_mul_bound(a.z as int, COORD_LIMIT as int, b.z as int, COORD_LIMIT as int);
}

impl Vec3 {
    pub fn new(x: i64, y: i64, z: i64) -> (v: Vec3)
        ensures
            v == (Vec3 { x, y, z }),
    {
        Vec3 { x, y, z }
    }

    pub fn zeros() -> (v: Vec3)
        ensures
            v == (Vec3 { x: 0i64, y: 0i64, z: 0i64 }),
    {
        Vec3 { x: 0, y: 0, z: 0 }
    }

    pub fn plus(self, other: Vec3) -> (r: Vec3)
        requires
            in_range(self),
            in_range(other),
        ensures
            r.x == self.x + other.x,
            r.y == self.y + other.y,
            r.z == self.z + other.z,
    {
        Vec3 { x: self.x + other.x, y: self.y + other.y, z: self.z + other.z }
    }

    pub fn minus(self, other: Vec3) -> (r: Vec3)
        requires
            in_range(self),
            in_range(other),
        ensures
            r.x == self.x - other.x,
            r.y == self.y - other.y,
            r.z == self.z - other.z,
    {
        Vec3 { x: self.x - other.x, y: self.y - other.y, z: self.z - other.z }
    }

    pub fn neg(self) -> (r: Vec3)
        requires
            in_range(self),
        ensures
            r.x == -self.x,
            r.y == -self.y,
            r.z == -self.z,
    {
        Vec3 { x: -self.x, y: -self.y, z: -self.z }
    }

    pub fn scale(self, s: i64) -> (r: Vec3)
        requires
            in_range(self),
            -COORD_LIMIT <= s <= COORD_LIMIT,
        ensures
            r.x == s * self.x,
            r.y == s * self.y,
            r.z == s * self.z,
    {
        proof {
            lemma_mul_bound(s as int, COORD_LIMIT as int, self.x as int, COORD_LIMIT as int);
            lemma_mul_bound(s as int, COORD_LIMIT as int, self.y as int, COORD_LIMIT as int);
            lemma_mul_bound(s as int, COORD_LIMIT as int, self.z as int, COORD_LIMIT as int);
        }
        Vec3 { x: s * self.x, y: s * self.y, z: s * self.z }
    }

    pub fn dot(self, other: Vec3) -> (r: i64)
        requires
            in_range(self),
            in_range(other),
        ensures
            r == spec_dot(self, other),
    {
        proof {
            lemma_mul_bound(self.x as int, COORD_LIMIT as int, other.x as int, COORD_LIMIT as int);
            lemma_mul_bound(self.y as int, COORD_LIMIT as int, other.y as int, COORD_LIMIT as int);
            lemma_mul_bound(self.z as int, COORD_LIMIT as int, other.z as int, COORD_LIMIT as int);
        }
        self.x * other.x + self.y * other.y + self.z * other.z
    }

    pub fn cross(self, other: Vec3) -> (r: Vec3)
        requires
            in_range(self),
            in_range(other),
        ensures
            r.x == self.y * other.z - self.z * other.y,
            r.y == self.z * other.x - self.x * other.z,
            r.z == self.x * other.y - self.y * other.x,
    {
        proof {
            lemma_mul_bound(self.x as int, COORD_LIMIT as int, other.y as int, COORD_LIMIT as int);
            lemma_mul_bound(self.x as int, COORD_LIMIT as int, other.z as int, COORD_LIMIT as int);
            lemma_mul_bound(self.y as int, COORD_LIMIT as int, other.x as int, COORD_LIMIT as int);
            lemma_mul_bound(self.y as int, COORD_LIMIT as int, other.z as int, COORD_LIMIT as int);
            lemma_mul_bound(self.z as int, COORD_LIMIT as int, other.x as int, COORD_LIMIT as int);
            lemma_mul_bound(self.z as int, COORD_LIMIT as int, other.y as int, COORD_LIMIT as int);
        }
        Vec3 {
            x: self.y * other.z - self.z * other.y,
            y: self.z * other.x - self.x * other.z,
            z: self.x * other.y - self.y * other.x,
        }
    }
}

/// Whether a vector is exactly zero; the exact-coordinate counterpart of
/// the pipeline's "all components below a tiny threshold" test.
pub fn near_zero(v: &Vec3) -> (r: bool)
    ensures
        r == (v.x == 0 && v.y == 0 && v.z == 0),
{
    v.x == 0 && v.y == 0 && v.z == 0
}

/// Mirror reflection about a surface normal:
/// `reflect(v, n) == v - 2 * dot(v, n) * n`, componentwise and exactly.
pub fn reflect(v: &Vec3, n: &Vec3) -> (r: Vec3)
    requires
        in_range(*v),
        in_range(*n),
    ensures
        r.x == v.x - 2 * spec_dot(*v, *n) * n.x,
        r.y == v.y - 2 * spec_dot(*v, *n) * n.y,
        r.z == v.z - 2 * spec_dot(*v, *n) * n.z,
{
    let d = v.dot(*n);
    proof {
        lemma_dot_bound(*v, *n);
        lemma_mul_bound(2 * d as int, 6 * (COORD_LIMIT as int * COORD_LIMIT as int), n.x as int, COORD_LIMIT as int);
        lemma_mul_bound(2 * d as int, 6 * (COORD_LIMIT as int * COORD_LIMIT as int), n.y as int, COORD_LIMIT as int);
        lemma_mul_bound(2 * d as int, 6 * (COORD_LIMIT as int * COORD_LIMIT as int), n.z as int, COORD_LIMIT as int);
    }
    Vec3 { x: v.x - 2 * d * n.x, y: v.y - 2 * d * n.y, z: v.z - 2 * d * n.z }
}

/// A vector anti-parallel to a unit normal reflects to its own negation:
/// if `dot(n, n) == 1` and `v == -t * n` then `reflect(v, n) == -v`.
pub proof fn lemma_reflect_antiparallel(v: Vec3, n: Vec3, t: int)
    requires
        spec_dot(n, n) == 1,
        v.x == -t * n.x,
        v.y == -t * n.y,
        v.z == -t * n.z,
    ensures
        v.x - 2 * spec_dot(v, n) * n.x == -v.x,
        v.y - 2 * spec_dot(v, n) * n.y == -v.y,
        v.z - 2 * spec_dot(v, n) * n.z == -v.z,
{
    assert(spec_dot(v, n) == -t * (n.x * n.x + n.y * n.y + n.z * n.z)) by (nonlinear_arith)
        requires
            v.x == -t * n.x,
            v.y == -t * n.y,
            v.z == -t * n.z,
    ;
    assert(v.x - 2 * spec_dot(v, n) * n.x == -v.x) by (nonlinear_arith)
        requires
            spec_dot(v, n) == -t,
            v.x == -t * n.x,
    ;
    assert(v.y - 2 * spec_dot(v, n) * n.y == -v.y) by (nonlinear_arith)
        requires
            spec_dot(v, n) == -t,
            v.y == -t * n.y,
    ;
    assert(v.z - 2 * spec_dot(v, n) * n.z == -v.z) by (nonlinear_arith)
        requires
            spec_dot(v, n) == -t,
            v.z == -t * n.z,
    ;
}

/// Refraction at a ratio of one does not bend the ray. The transmission
/// formula splits the outgoing direction into a part perpendicular to the
/// normal, `p == uv + c * n` with `c` the cosine of incidence, and a part
/// `-sqrt(1 - dot(p, p)) * n` along it. At ratio one the radicand is the
/// perfect square `c * c`, so the parallel part is exactly `-c * n` and
/// the outgoing direction `p - c * n` is the incoming `uv` again.
pub proof fn lemma_refract_ratio_one(uv: Vec3, n: Vec3, c: int)
    requires
        spec_dot(uv, uv) == 1,
        spec_dot(n, n) == 1,
        c == -spec_dot(uv, n),
    ensures
        ({
            let px = uv.x + c * n.x;
            let py = uv.y + c * n.y;
            let pz = uv.z + c * n.z;
            px * px + py * py + pz * pz == 1 - c * c && px - c * n.x == uv.x && py - c * n.y
                == uv.y && pz - c * n.z == uv.z
        }),
{
    let px = uv.x + c * n.x;
    let py = uv.y + c * n.y;
    let pz = uv.z + c * n.z;
    assert(px * px + py * py + pz * pz == 1 - c * c) by (nonlinear_arith)
        requires
            px == uv.x + c * n.x,
            py == uv.y + c * n.y,
            pz == uv.z + c * n.z,
            uv.x * uv.x + uv.y * uv.y + uv.z * uv.z == 1,
            n.x * n.x + n.y * n.y + n.z * n.z == 1,
            c == -(uv.x * n.x + uv.y * n.y + uv.z * n.z),
    ;
}

} // verus!
