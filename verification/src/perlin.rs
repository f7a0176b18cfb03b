//! The permutation tables behind gradient noise.
//!
//! Gradient noise hashes lattice coordinates through three independently
//! shuffled permutation tables and combines them with exclusive-or to
//! index a table of gradient vectors. Two facts keep that indexing sound,
//! and both are proved here: a shuffled table is a true permutation of
//! `0..n` (so every entry is a valid index), and the exclusive-or of
//! three values below 256 stays below 256. The random swap targets that
//! drive the shuffle are drawn by the caller; the result is a permutation
//! whichever targets are supplied.

use vstd::prelude::*;

verus! {

/// The number of entries of a noise permutation table.
pub const POINT_COUNT: usize = 256;

/// Exchanges two table entries in place.
fn swap_entries(v: &mut Vec<usize>, a: usize, b: usize)
    requires
        a < old(v)@.len(),
        b < old(v)@.len(),
    ensures
        final(v)@.len() == old(v)@.len(),
        final(v)@[a as int] == old(v)@[b as int],
        final(v)@[b as int] == old(v)@[a as int],
        forall|k: int| 0 <= k < old(v)@.len() && k != a && k != b ==> final(v)@[k] == old(v)@[k],
{
    let va = v[a];
    let vb = v[b];
    v.set(a, vb);
    v.set(b, va);
}

/// The table that results from exchanging entry `i` with entry
/// `targets[i]`, for `i` from `i0` down to `1`.
pub open spec fn shuffle_from(p: Seq<usize>, targets: Seq<usize>, i0: int) -> Seq<usize>
    decreases (if i0 >= 0 {
        i0
    } else {
        0
    }),
{
    if i0 < 1 {
        p
    } else {
        let t = targets[i0] as int;
        shuffle_from(p.update(i0, p[t]).update(t, p[i0]), targets, i0 - 1)
    }
}

/// The identity table `0..n`.
pub open spec fn identity_table(n: int) -> Seq<usize> {
    Seq::new(n as nat, |k: int| k as usize)
}

/// The table holds each of `0..n` exactly once.
pub open spec fn is_permutation(p: Seq<usize>, n: int) -> bool {
    &&& p.len() == n
    &&& forall|i: int| 0 <= i < n ==> (p[i] as int) < n
    &&& forall|i: int, j: int| 0 <= i < j < n ==> p[i] != p[j]
    &&& forall|v: usize| (v as int) < n ==> #[trigger] p.contains(v)
}

/// Shuffles the identity table `0..n` from the back: entry `i` is
/// exchanged with entry `targets[i]`, for `i` from `n - 1` down to `1`.
/// Whatever targets are drawn, the result is a permutation of `0..n`.
#[verifier::loop_isolation(false)]
pub fn generate_perm(n: usize, targets: &Vec<usize>) -> (p: Vec<usize>)
    requires
        targets@.len() == n,
        forall|i: int| 1 <= i < n ==> (#[trigger] targets@[i]) <= i,
    ensures
        is_permutation(p@, n as int),
        p@ == shuffle_from(identity_table(n as int), targets@, n - 1),
{
    let mut p: Vec<usize> = Vec::new();
    let mut k: usize = 0;
    while k < n
        invariant
            k <= n,
            p@.len() == k,
            forall|i: int| 0 <= i < k ==> p@[i] == i,
        decreases n - k,
    {
        p.push(k);
        k = k + 1;
    }
    proof {
        assert(p@ =~= identity_table(n as int));
    }
    if n == 0 {
        return p;
    }
    proof {
        assert forall|v: usize| (v as int) < n implies #[trigger] p@.contains(v) by {
            assert(p@[v as int] == v);
        }
    }
    let mut i: usize = n - 1;
    while i >= 1
        invariant
            0 <= i < n,
            p@.len() == n,
            forall|a: int| 0 <= a < n ==> (p@[a] as int) < n,
            forall|a: int, b: int| 0 <= a < b < n ==> p@[a] != p@[b],
            forall|v: usize| (v as int) < n ==> #[trigger] p@.contains(v),
            shuffle_from(p@, targets@, i as int) == shuffle_from(
                identity_table(n as int),
                targets@,
                n - 1,
            ),
        decreases i,
    {
        let ghost p0 = p@;
        let target = targets[i];
        swap_entries(&mut p, i, target);
        proof {
            assert(p@ =~= p0.update(i as int, p0[target as int]).update(target as int, p0[i as int]));
            assert(shuffle_from(p0, targets@, i as int) == shuffle_from(p@, targets@, i as int - 1));
            assert forall|v: usize| (v as int) < n implies #[trigger] p@.contains(v) by {
                assert(p0.contains(v));
                let a0 = choose|a: int| 0 <= a < p0.len() && p0[a] == v;
                if a0 == i {
                    assert(p@[target as int] == v);
                } else if a0 == target {
                    assert(p@[i as int] == v);
                } else {
                    assert(p@[a0] == v);
                }
            }
        }
        i = i - 1;
    }
    p
}

/// The exclusive-or of three table entries below 256 is itself below 256,
/// so it indexes the gradient table safely.
pub fn lattice_index(a: usize, b: usize, c: usize) -> (r: usize)
    requires
        a < 256,
        b < 256,
        c < 256,
    ensures
        r == (a ^ b ^ c),
        r < 256,
{
    let r = a ^ b ^ c;
    proof {
        assert(a < 256 && b < 256 && c < 256 ==> (a ^ b ^ c) < 256) by (bit_vector);
    }
    r
}

} // verus!
