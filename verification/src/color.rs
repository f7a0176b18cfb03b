//! Tone mapping and frame aggregation, in exact rational arithmetic.
//!
//! A displayed channel is a non-negative fraction clamped just below one
//! and quantised to eight bits by multiplying by 256 and truncating. For
//! fractions the whole clamp-and-quantise step collapses to
//! `min(floor(256 * num / den), 255)`, which `tone_map_channel` computes
//! and `lemma_tone_map_is_clamped_quantise` relates to the clamped form.
//!
//! Frame aggregation averages one 8-bit channel across several rendered
//! frames, re-applies gamma correction (a square root) and quantises; all
//! of it is exact here, with an integer square root standing in for the
//! floating-point one.

use vstd::prelude::*;

verus! {

/// `min(floor(256 * num / den), 255)`: what clamping a non-negative
/// fraction to just below one and truncating `256 *` it produces.
pub open spec fn spec_tone_map(num: int, den: int) -> int {
    if 256 * num / den >= 255 {
        255
    } else {
        256 * num / den
    }
}

/// Quantises the exact channel fraction `num / den` to eight bits.
pub fn tone_map_channel(num: u64, den: u64) -> (r: u8)
    requires
        den > 0,
    ensures
        r == spec_tone_map(num as int, den as int),
{
    let q = (256u128 * num as u128) / den as u128;
    if q >= 255 {
        255
    } else {
        q as u8
    }
}

/// The quantiser agrees with "clamp to `[0, 999/1000]`, then truncate
/// `256 *`": a fraction at or above the clamp maps to 255, and one below
/// it maps to its own truncation, which never exceeds 255.
pub proof fn lemma_tone_map_is_clamped_quantise(num: int, den: int)
    requires
        num >= 0,
        den > 0,
    ensures
        1000 * num >= 999 * den ==> spec_tone_map(num, den) == 255,
        1000 * num < 999 * den ==> spec_tone_map(num, den) == 256 * num / den && 256 * num / den
            <= 255,
{
    let q = 256 * num / den;
    vstd::arithmetic::div_mod::lemma_fundamental_div_mod(256 * num, den);
    if 1000 * num >= 999 * den {
        // num/den >= 999/1000, so 256 num/den >= 255.744 and the floor is at least 255.
        if q < 255 {
            assert(256 * num == den * q + (256 * num) % den);
            assert(den * q <= den * 254) by (nonlinear_arith)
                requires
                    den > 0,
                    q <= 254,
            ;
            assert(1000 * (256 * num) < 1000 * (den * 255)) by (nonlinear_arith)
                requires
                    256 * num < den * 255,
                    den > 0,
            ;
            assert(1000 * (256 * num) >= 256 * (999 * den)) by (nonlinear_arith)
                requires
                    1000 * num >= 999 * den,
            ;
            assert(256 * 999 * den >= 1000 * 255 * den) by (nonlinear_arith)
                requires
                    den > 0,
            ;
        }
    } else {
        // num/den < 999/1000 < 1, so 256 num/den < 256 and the floor is at most 255.
        if q > 255 {
            assert(256 * num == den * q + (256 * num) % den);
            assert(den * q >= den * 256) by (nonlinear_arith)
                requires
                    den > 0,
                    q >= 256,
            ;
            assert(1000 * (256 * num) >= 1000 * (256 * den)) by (nonlinear_arith)
                requires
                    256 * num >= 256 * den,
            ;
            assert(1000 * (256 * num) < 256 * (999 * den)) by (nonlinear_arith)
                requires
                    1000 * num < 999 * den,
            ;
            assert(256 * 999 * den < 1000 * 256 * den) by (nonlinear_arith)
                requires
                    den > 0,
            ;
        }
    }
}

/// Full white maps to the largest 8-bit value and black to zero.
pub proof fn lemma_tone_map_extremes(den: int)
    requires
        den > 0,
    ensures
        spec_tone_map(den, den) == 255,
        spec_tone_map(0, den) == 0,
{
    assert(256 * den / den == 256) by {
        vstd::arithmetic::div_mod::lemma_div_by_multiple(256, den);
    }
    assert((256int * 0) / den == 0) by {
        vstd::arithmetic::div_mod::lemma_div_by_multiple(0, den);
    }
}

/// The sum of a channel across frames, as a mathematical integer.
pub open spec fn spec_sum(s: Seq<u8>) -> int
    decreases s.len(),
{
    if s.len() == 0 {
        0
    } else {
        spec_sum(s.drop_last()) + s.last()
    }
}

/// `out` is the aggregated channel of the frames `s`: with
/// `q = 65536 * sum` and `d = 255 * count`, the mean channel intensity is
/// `sum / (255 * count)` and the gamma-corrected, quantised result is
/// `min(floor(sqrt(q / d)), 255)` — stated by bounding squares, which
/// pins `out` uniquely.
pub open spec fn aggregated(s: Seq<u8>, out: u8) -> bool {
    let q = 65536 * spec_sum(s);
    let d = 255 * s.len() as int;
    if out == 255 {
        255 * 255 * d <= q
    } else {
        out * out * d <= q < (out + 1) * (out + 1) * d
    }
}

/// Floor of the square root: binary search over the answer.
fn isqrt(x: u128) -> (r: u128)
    ensures
        r * r <= x < (r + 1) * (r + 1),
{
    let mut lo: u128 = 0;
    let mut hi: u128 = 0x10000000000000000;
    proof {
        assert(hi * hi > x) by (nonlinear_arith)
            requires
                hi == 0x10000000000000000u128,
                x <= u128::MAX,
        ;
    }
    while hi - lo > 1
        invariant
            lo < hi <= 0x10000000000000000,
            lo * lo <= x,
            hi * hi > x,
        decreases hi - lo,
    {
        let mid = lo + (hi - lo) / 2;
        proof {
            assert(mid * mid < 0x100000000000000000000000000000000) by (nonlinear_arith)
                requires
                    mid < 0x10000000000000000u128,
            ;
        }
        if mid * mid <= x {
            lo = mid;
        } else {
            hi = mid;
        }
    }
    lo
}

/// Averages one channel across the given frames, re-applies gamma and
/// quantises, all in exact arithmetic.
pub fn aggregate_channel(values: &Vec<u8>) -> (out: u8)
    requires
        1 <= values@.len() <= 0x100000000,
    ensures
        aggregated(values@, out),
{
    let mut sum: u64 = 0;
    let mut i: usize = 0;
    while i < values.len()
        invariant
            i <= values@.len() <= 0x100000000,
            sum == spec_sum(values@.subrange(0, i as int)),
            sum <= 255 * i,
        decreases values@.len() - i,
    {
        proof {
            assert(values@.subrange(0, i + 1).drop_last() =~= values@.subrange(0, i as int));
        }
        sum = sum + values[i] as u64;
        i = i + 1;
    }
    proof {
        assert(values@.subrange(0, values@.len() as int) =~= values@);
    }
    let q: u128 = 65536u128 * sum as u128;
    let d: u128 = 255u128 * values.len() as u128;
    proof {
        assert(q * d <= 0x1000000000000000000000000) by (nonlinear_arith)
            requires
                q <= 65536u128 * (255u128 * 0x100000000),
                d <= 255u128 * 0x100000000,
        ;
    }
    let root = isqrt(q * d);
    let m = root / d;
    proof {
        vstd::arithmetic::div_mod::lemma_fundamental_div_mod(root as int, d as int);
        let rem = root as int % d as int;
        assert(root == d * m + rem);
        // m * m * d <= q: squares of md <= root stay below root^2 <= q d.
        assert(m * d <= root) by (nonlinear_arith)
            requires
                root as int == d as int * m as int + rem,
                rem >= 0,
        ;
        assert((m * d) * (m * d) <= root * root) by (nonlinear_arith)
            requires
                0 <= m * d <= root,
        ;
        assert(m * m * d * d <= q * d) by (nonlinear_arith)
            requires
                (m as int * d as int) * (m as int * d as int) <= root as int * root as int,
                root as int * root as int <= q as int * d as int,
        ;
        assert(m * m * d <= q) by (nonlinear_arith)
            requires
                m as int * m as int * d as int * d as int <= q as int * d as int,
                d > 0,
        ;
        // q < (m+1)^2 d: root + 1 <= (m+1) d, and q d < (root+1)^2.
        assert(root + 1 <= (m + 1) * d) by (nonlinear_arith)
            requires
                root as int == d as int * m as int + rem,
                rem < d as int,
        ;
        assert((root + 1) * (root + 1) <= ((m + 1) * d) * ((m + 1) * d)) by (nonlinear_arith)
            requires
                0 <= root as int + 1 <= (m as int + 1) * d as int,
        ;
        assert(q * d < (m + 1) * (m + 1) * d * d) by (nonlinear_arith)
            requires
                (q as int * d as int) < (root as int + 1) * (root as int + 1),
                (root as int + 1) * (root as int + 1) <= ((m as int + 1) * d as int) * ((m as int
                    + 1) * d as int),
        ;
        assert(q < (m + 1) * (m + 1) * d) by (nonlinear_arith)
            requires
                (q as int * d as int) < (m as int + 1) * (m as int + 1) * d as int * d as int,
                d > 0,
        ;
        // If the floor reaches 255 the clamped branch's bound holds too.
        if m >= 255 {
            assert(255 * 255 * d <= m * m * d) by (nonlinear_arith)
                requires
                    m >= 255,
                    d > 0,
            ;
        }
    }
    if m >= 255 {
        255
    } else {
        m as u8
    }
}

/// Summing a constant channel over `k` frames gives `k` times the value.
pub proof fn lemma_sum_constant(s: Seq<u8>, v: u8)
    requires
        forall|i: int| 0 <= i < s.len() ==> s[i] == v,
    ensures
        spec_sum(s) == s.len() * v,
    decreases s.len(),
{
    if s.len() > 0 {
        lemma_sum_constant(s.drop_last(), v);
        assert(spec_sum(s) == (s.len() - 1) * v + v);
        assert((s.len() - 1) * v + v == s.len() * v) by (nonlinear_arith);
    }
}

/// Aggregating any number of identical frames and re-applying gamma gives
/// the same channel as aggregating that one frame alone: the
/// average-then-gamma step is a fixed point on identical inputs.
pub proof fn lemma_aggregate_idempotent(s: Seq<u8>, v: u8, out: u8)
    requires
        s.len() >= 1,
        forall|i: int| 0 <= i < s.len() ==> s[i] == v,
        aggregated(s, out),
    ensures
        aggregated(seq![v], out),
{
    let k = s.len() as int;
    lemma_sum_constant(s, v);
    assert(spec_sum(seq![v]) == v) by {
        assert(seq![v].len() == 1);
        assert(seq![v].last() == v);
        assert(seq![v].drop_last() =~= Seq::<u8>::empty());
        assert(spec_sum(Seq::<u8>::empty()) == 0);
    }
    if out == 255 {
        assert(255 * 255 * (255 * k) <= 65536 * (k * v as int));
        assert(255 * 255 * 255 <= 65536 * (v as int)) by (nonlinear_arith)
            requires
                k >= 1,
                255 * 255 * (255 * k) <= 65536 * (k * (v as int)),
        ;
        assert(255 * 255 * (255 * seq![v].len() as int) <= 65536 * spec_sum(seq![v]));
    } else {
        assert(out * out * (255 * k) <= 65536 * (k * v as int));
        assert(65536 * (k * v as int) < (out + 1) * (out + 1) * (255 * k));
        assert(out * out * 255 <= 65536 * (v as int)) by (nonlinear_arith)
            requires
                k >= 1,
                (out as int) * (out as int) * (255 * k) <= 65536 * (k * (v as int)),
        ;
        assert(65536 * (v as int) < (out + 1) * (out + 1) * 255) by (nonlinear_arith)
            requires
                k >= 1,
                65536 * (k * (v as int)) < ((out as int) + 1) * ((out as int) + 1) * (255 * k),
        ;
        assert(out * out * (255 * seq![v].len() as int) <= 65536 * spec_sum(seq![v]));
        assert(65536 * spec_sum(seq![v]) < (out + 1) * (out + 1) * (255 * seq![v].len() as int));
    }
}

} // verus!
