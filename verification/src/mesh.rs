//! Resolution of mesh face indices.
//!
//! A mesh file lists positions, texture coordinates and normals, then
//! faces that refer to them by one-based index. Reading the numbers is
//! the loader's concern; what must hold before any triangle is built is
//! that every face index is in range. Resolution checks that and rebases
//! the indices to zero; a face with any index out of range is fatal, and
//! the error names the first such face.

use vstd::prelude::*;

verus! {

/// One corner of a face: one-based indices into the position, texture
/// coordinate and normal lists, as the file states them.
#[derive(Clone, Copy, Debug, PartialEq, Eq, Structural)]
pub struct FaceVertex {
    pub position: usize,
    pub uv: usize,
    pub normal: usize,
}

/// A triangular face: three corners.
#[derive(Clone, Copy, Debug, PartialEq, Eq, Structural)]
pub struct Face {
    pub a: FaceVertex,
    pub b: FaceVertex,
    pub c: FaceVertex,
}

/// A face whose indices are out of range aborts mesh construction; the
/// error carries the offending face's position in the face list.
#[derive(Clone, Copy, Debug, PartialEq, Eq, Structural)]
pub struct MeshError {
    pub face: usize,
}

/// A one-based index is valid for a list of `count` entries.
pub open spec fn index_ok(idx: usize, count: usize) -> bool {
    1 <= idx <= count
}

/// Every index of the corner is in range for its list.
pub open spec fn corner_ok(v: FaceVertex, positions: usize, uvs: usize, normals: usize) -> bool {
    index_ok(v.position, positions) && index_ok(v.uv, uvs) && index_ok(v.normal, normals)
}

/// Every index of the face is in range for its list.
pub open spec fn face_ok(f: Face, positions: usize, uvs: usize, normals: usize) -> bool {
    corner_ok(f.a, positions, uvs, normals) && corner_ok(f.b, positions, uvs, normals)
        && corner_ok(f.c, positions, uvs, normals)
}

/// The corner with its indices rebased to zero.
pub open spec fn spec_rebase(v: FaceVertex) -> FaceVertex {
    FaceVertex { position: (v.position - 1) as usize, uv: (v.uv - 1) as usize, normal: (v.normal
        - 1) as usize }
}

fn rebase_corner(v: &FaceVertex) -> (r: FaceVertex)
    requires
        v.position >= 1,
        v.uv >= 1,
        v.normal >= 1,
    ensures
        r == spec_rebase(*v),
{
    FaceVertex { position: v.position - 1, uv: v.uv - 1, normal: v.normal - 1 }
}

fn corner_in_range(v: &FaceVertex, positions: usize, uvs: usize, normals: usize) -> (r: bool)
    ensures
        r == corner_ok(*v, positions, uvs, normals),
{
    1 <= v.position && v.position <= positions && 1 <= v.uv && v.uv <= uvs && 1 <= v.normal
        && v.normal <= normals
}

/// Validates every face against the list sizes and rebases its indices
/// to zero. Succeeds exactly when every index of every face is in range;
/// otherwise fails naming the first out-of-range face.
pub fn resolve_faces(
    positions: usize,
    uvs: usize,
    normals: usize,
    faces: &Vec<Face>,
) -> (r: Result<Vec<Face>, MeshError>)
    ensures
        match r {
            Ok(ts) => {
                &&& ts@.len() == faces@.len()
                &&& forall|i: int|
                    0 <= i < faces@.len() ==> face_ok(#[trigger] faces@[i], positions, uvs, normals)
                &&& forall|i: int|
                    0 <= i < faces@.len() ==> (#[trigger] ts@[i]) == (Face {
                        a: spec_rebase(faces@[i].a),
                        b: spec_rebase(faces@[i].b),
                        c: spec_rebase(faces@[i].c),
                    })
            },
            Err(e) => {
                &&& (e.face as int) < faces@.len()
                &&& !face_ok(faces@[e.face as int], positions, uvs, normals)
                &&& forall|i: int|
                    0 <= i < e.face ==> face_ok(#[trigger] faces@[i], positions, uvs, normals)
            },
        },
{
    let mut out: Vec<Face> = Vec::new();
    let mut i: usize = 0;
    while i < faces.len()
        invariant
            i <= faces@.len(),
            out@.len() == i,
            forall|k: int|
                0 <= k < i ==> face_ok(#[trigger] faces@[k], positions, uvs, normals),
            forall|k: int|
                0 <= k < i ==> (#[trigger] out@[k]) == (Face {
                    a: spec_rebase(faces@[k].a),
                    b: spec_rebase(faces@[k].b),
                    c: spec_rebase(faces@[k].c),
                }),
        decreases faces@.len() - i,
    {
        let f = faces[i];
        if !(corner_in_range(&f.a, positions, uvs, normals) && corner_in_range(
            &f.b,
            positions,
            uvs,
            normals,
        ) && corner_in_range(&f.c, positions, uvs, normals)) {
            return Err(MeshError { face: i });
        }
        out.push(
            Face { a: rebase_corner(&f.a), b: rebase_corner(&f.b), c: rebase_corner(&f.c) },
        );
        i = i + 1;
    }
    Ok(out)
}

/// An ASCII decimal digit.
pub open spec fn is_digit(b: u8) -> bool {
    48 <= b <= 57
}

/// Every byte of the token is a digit.
pub open spec fn all_digits(s: Seq<u8>) -> bool {
    forall|i: int| 0 <= i < s.len() ==> is_digit(#[trigger] s[i])
}

/// The number a digit string denotes, most significant digit first.
pub open spec fn digits_value(s: Seq<u8>) -> int
    decreases s.len(),
{
    if s.len() == 0 {
        0
    } else {
        digits_value(s.drop_last()) * 10 + (s.last() - 48)
    }
}

proof fn lemma_digits_value_nonneg(s: Seq<u8>)
    requires
        all_digits(s),
    ensures
        digits_value(s) >= 0,
    decreases s.len(),
{
    if s.len() > 0 {
        assert(all_digits(s.drop_last())) by {
            assert(forall|i: int|
                0 <= i < s.drop_last().len() ==> #[trigger] s.drop_last()[i] == s[i]);
        }
        lemma_digits_value_nonneg(s.drop_last());
        assert(digits_value(s.drop_last()) * 10 >= 0) by (nonlinear_arith)
            requires
                digits_value(s.drop_last()) >= 0,
        ;
    }
}

/// A digit string denotes at least what any of its prefixes denotes.
proof fn lemma_digits_prefix_le(s: Seq<u8>, i: int)
    requires
        all_digits(s),
        0 <= i <= s.len(),
    ensures
        digits_value(s.subrange(0, i)) <= digits_value(s),
    decreases s.len() - i,
{
    if i == s.len() {
        assert(s.subrange(0, i) =~= s);
    } else {
        let shorter = s.subrange(0, i);
        let longer = s.subrange(0, i + 1);
        assert(longer.drop_last() =~= shorter);
        assert(longer.last() == s[i]);
        assert(all_digits(shorter));
        lemma_digits_value_nonneg(shorter);
        assert(digits_value(shorter) <= digits_value(shorter) * 10 + (s[i] - 48))
            by (nonlinear_arith)
            requires
                digits_value(shorter) >= 0,
                48 <= s[i] <= 57,
        ;
        lemma_digits_prefix_le(s, i + 1);
    }
}

/// Parses a one-based face index: the token must be all decimal digits
/// and denote a value the machine can hold; anything else is rejected.
pub fn parse_index(s: &[u8]) -> (r: Option<usize>)
    ensures
        match r {
            Some(v) => s@.len() > 0 && all_digits(s@) && v == digits_value(s@),
            None => s@.len() == 0 || !all_digits(s@) || digits_value(s@) > usize::MAX,
        },
{
    if s.len() == 0 {
        return None;
    }
    let mut acc: usize = 0;
    let mut i: usize = 0;
    while i < s.len()
        invariant
            0 < s@.len(),
            0 <= i <= s@.len(),
            forall|k: int| 0 <= k < i ==> is_digit(#[trigger] s@[k]),
            acc == digits_value(s@.subrange(0, i as int)),
        decreases s@.len() - i,
    {
        let b = s[i];
        if b < 48 || b > 57 {
            return None;
        }
        let d = (b - 48) as usize;
        proof {
            assert(s@.subrange(0, i + 1).drop_last() =~= s@.subrange(0, i as int));
            assert(s@.subrange(0, i + 1).last() == s@[i as int]);
        }
        let wide = match acc.checked_mul(10) {
            Some(x) => x.checked_add(d),
            None => None,
        };
        match wide {
            Some(next) => {
                acc = next;
            },
            None => {
                proof {
                    if all_digits(s@) {
                        lemma_digits_prefix_le(s@, i + 1);
                    }
                }
                return None;
            },
        }
        i = i + 1;
    }
    proof {
        assert(s@.subrange(0, s@.len() as int) =~= s@);
    }
    Some(acc)
}

} // verus!
