//! Bounding-volume hierarchy: a binary spatial index over primitives.
//!
//! The tree is an arena of nodes addressed by integer index; a node stores
//! the sub-range of the primitive array it covers, a box containing every
//! primitive box of that range, and, for an inner node, the indices of its
//! two children, which partition the range at a split point. Children are
//! emitted before their parent, so the root is the last node, every child
//! index points backwards, and no parent back-patching is needed; the
//! builder's recursion depth is bounded by the same limit that forces deep
//! nodes into leaves.
//!
//! The theorems that justify the structure: construction covers — every
//! primitive ends up in exactly one leaf (`lemma_each_position_in_one_leaf`);
//! traversal agrees with a brute-force linear scan — a box query through
//! the hierarchy reports exactly the primitives whose boxes meet the
//! query, each of them once (`query`, `scan_query`, `lemma_query_matches_scan`,
//! `lemma_answers_same_multiset`), so the nearest hit over the candidates
//! agrees too (`closest_of`, `lemma_nearest_agrees`).

use vstd::prelude::*;

use crate::aabb::Aabb;
use crate::aabb::Axis;
use crate::aabb::coord;
use crate::aabb::lemma_contained_intersects;

verus! {

/// A sub-range at most this long becomes a leaf.
pub const LEAF_CUTOFF: usize = 4;

/// A node at this depth becomes a leaf regardless of its size.
pub const BVH_MAX_DEPTH: u32 = 16;

/// A primitive as the hierarchy sees it: its bounding box and the
/// caller's handle back to the primitive itself.
#[derive(Clone, Copy, Debug, PartialEq, Eq, Structural)]
pub struct Prim {
    pub bbox: Aabb,
    pub id: usize,
}

/// One arena node. `children` is `None` for a leaf; for an inner node it
/// holds the arena indices of the two children. The depth records how far
/// below the root the node sits and pins the leafing rule: a node is a
/// leaf exactly when its range is small enough or its depth has reached
/// the limit.
#[derive(Clone, Copy, Debug)]
pub struct BvhNode {
    pub bbox: Aabb,
    pub start: usize,
    pub end: usize,
    pub depth: u32,
    pub children: Option<(usize, usize)>,
}

/// The sort key of a primitive along an axis: the minimum corner of its
/// box, as the construction's comparator uses it.
pub open spec fn prim_key(p: Prim, axis: Axis) -> int {
    coord(p.bbox.min, axis) as int
}

/// `ps[start..end)` is ordered by key along `axis`.
pub open spec fn sorted_by_key(ps: Seq<Prim>, start: int, end: int, axis: Axis) -> bool {
    forall|a: int, b: int| start <= a <= b < end ==> prim_key(ps[a], axis) <= prim_key(ps[b], axis)
}

/// The number of primitive positions a node covers.
pub open spec fn node_span(tree: Seq<BvhNode>, i: int) -> int {
    tree[i].end - tree[i].start
}

/// Well-formedness of one node: its range is a non-empty range of the
/// primitive array, its box contains every primitive box of the range,
/// and, if it is inner, its children were emitted earlier and partition
/// its range at an interior split point.
pub open spec fn wf_node(tree: Seq<BvhNode>, ps: Seq<Prim>, i: int) -> bool {
    let n = tree[i];
    &&& 0 <= i < tree.len()
    &&& 0 <= n.start < n.end <= ps.len()
    &&& forall|j: int| n.start <= j < n.end ==> n.bbox.spec_contains_box((#[trigger] ps[j]).bbox)
    &&& match n.children {
        Some((l, r)) => {
            &&& n.end - n.start > LEAF_CUTOFF
            &&& n.depth < BVH_MAX_DEPTH
            &&& (l as int) < i
            &&& (r as int) < i
            &&& tree[l as int].start == n.start
            &&& tree[l as int].end == tree[r as int].start
            &&& tree[r as int].end == n.end
            &&& n.start < tree[l as int].end < n.end
            &&& tree[l as int].depth == n.depth + 1
            &&& tree[r as int].depth == n.depth + 1
        },
        None => n.end - n.start <= LEAF_CUTOFF || n.depth >= BVH_MAX_DEPTH,
    }
}

/// Well-formedness of the whole arena: the root (the last node) covers
/// the entire primitive array, and every node is well-formed.
pub open spec fn wf(tree: Seq<BvhNode>, ps: Seq<Prim>) -> bool {
    &&& tree.len() >= 1
    &&& tree[tree.len() - 1].start == 0
    &&& tree[tree.len() - 1].end == ps.len()
    &&& tree[tree.len() - 1].depth == 0
    &&& forall|i: int| 0 <= i < tree.len() ==> wf_node(tree, ps, i)
}

/// The number of nodes in the subtree rooted at `i`, used as the
/// termination measure of the stack-based traversal. The recursion is
/// guarded by the shape facts that well-formedness supplies; on a
/// malformed arena the guard fails and the weight is simply one.
pub open spec fn weight(tree: Seq<BvhNode>, i: int) -> nat
    decreases (if 0 <= i < tree.len() && node_span(tree, i) > 0 {
        node_span(tree, i)
    } else {
        0
    }),
{
    if 0 <= i < tree.len() {
        match tree[i].children {
            None => 1nat,
            Some((l, r)) => {
                if 0 <= l < i && 0 <= r < i && 0 < node_span(tree, l as int) < node_span(tree, i)
                    && 0 < node_span(tree, r as int) < node_span(tree, i) {
                    1nat + weight(tree, l as int) + weight(tree, r as int)
                } else {
                    1nat
                }
            },
        }
    } else {
        1nat
    }
}

/// The combined weight of every node still waiting on the traversal
/// stack.
pub open spec fn stack_weight(tree: Seq<BvhNode>, stack: Seq<usize>) -> nat
    decreases stack.len(),
{
    if stack.len() == 0 {
        0nat
    } else {
        weight(tree, stack.last() as int) + stack_weight(tree, stack.drop_last())
    }
}

/// How many leaves of the subtree rooted at `i` cover position `p`.
pub open spec fn leaf_count(tree: Seq<BvhNode>, i: int, p: int) -> int
    decreases (if 0 <= i < tree.len() && node_span(tree, i) > 0 {
        node_span(tree, i)
    } else {
        0
    }),
{
    if 0 <= i < tree.len() {
        match tree[i].children {
            None => if tree[i].start <= p < tree[i].end {
                1
            } else {
                0
            },
            Some((l, r)) => {
                if 0 <= l < i && 0 <= r < i && 0 < node_span(tree, l as int) < node_span(tree, i)
                    && 0 < node_span(tree, r as int) < node_span(tree, i) {
                    leaf_count(tree, l as int, p) + leaf_count(tree, r as int, p)
                } else {
                    0
                }
            },
        }
    } else {
        0
    }
}

/// Construction covers: in a well-formed arena, a position inside a
/// node's range lies in exactly one leaf of its subtree, and a position
/// outside it in none.
pub proof fn lemma_leaf_coverage(tree: Seq<BvhNode>, ps: Seq<Prim>, i: int, p: int)
    requires
        forall|k: int| 0 <= k < tree.len() ==> wf_node(tree, ps, k),
        0 <= i < tree.len(),
    ensures
        tree[i].start <= p < tree[i].end ==> leaf_count(tree, i, p) == 1,
        !(tree[i].start <= p < tree[i].end) ==> leaf_count(tree, i, p) == 0,
    decreases node_span(tree, i),
{
    assert(wf_node(tree, ps, i));
    match tree[i].children {
        None => {},
        Some((l, r)) => {
            assert(wf_node(tree, ps, l as int));
            assert(wf_node(tree, ps, r as int));
            lemma_leaf_coverage(tree, ps, l as int, p);
            lemma_leaf_coverage(tree, ps, r as int, p);
        },
    }
}

/// Every primitive position is covered by exactly one leaf of a
/// well-formed hierarchy — the consistency the construction owes.
pub proof fn lemma_each_position_in_one_leaf(tree: Seq<BvhNode>, ps: Seq<Prim>, p: int)
    requires
        wf(tree, ps),
        0 <= p < ps.len(),
    ensures
        leaf_count(tree, tree.len() - 1, p) == 1,
{
    lemma_leaf_coverage(tree, ps, tree.len() - 1, p);
}

/// The ranges of two nodes share no position.
pub open spec fn ranges_disjoint(tree: Seq<BvhNode>, a: int, b: int) -> bool {
    tree[a].end <= tree[b].start || tree[b].end <= tree[a].start
}

/// The characterisation both query paths meet: `out` holds only
/// positions of primitives whose box meets the query box, and holds
/// every such position.
pub open spec fn answers(out: Seq<usize>, prims: Seq<Prim>, qbox: Aabb) -> bool {
    &&& forall|k: int|
        0 <= k < out.len() ==> (out[k] as int) < prims.len() && prims[out[k] as int].bbox.spec_intersects(qbox)
    &&& forall|p: int|
        0 <= p < prims.len() && (#[trigger] prims[p]).bbox.spec_intersects(qbox) ==> out.contains(
            p as usize,
        )
}

/// Two answer lists for the same primitives and query hold the same
/// positions: accelerated traversal and the brute-force scan agree.
pub proof fn lemma_query_matches_scan(a: Seq<usize>, b: Seq<usize>, prims: Seq<Prim>, qbox: Aabb)
    requires
        answers(a, prims, qbox),
        answers(b, prims, qbox),
    ensures
        forall|p: usize| a.contains(p) <==> b.contains(p),
{
    assert forall|p: usize| a.contains(p) implies b.contains(p) by {
        let k = choose|k: int| 0 <= k < a.len() && a[k] == p;
        assert(prims[p as int].bbox.spec_intersects(qbox));
    }
    assert forall|p: usize| b.contains(p) implies a.contains(p) by {
        let k = choose|k: int| 0 <= k < b.len() && b[k] == p;
        assert(prims[p as int].bbox.spec_intersects(qbox));
    }
}

/// The smallest box containing every primitive box of
/// `objects[start..end)`; an empty range wraps to the canonical empty
/// box.
pub fn wrap_prims(objects: &Vec<Prim>, start: usize, end: usize) -> (r: Aabb)
    requires
        start <= end <= objects@.len(),
    ensures
        forall|i: int| start <= i < end ==> r.spec_contains_box((#[trigger] objects@[i]).bbox),
        start == end ==> r == Aabb::empty_spec(),
        forall|b: Aabb|
            (forall|i: int|
                start <= i < end ==> b.spec_contains_box((#[trigger] objects@[i]).bbox)) ==> (start
                == end || #[trigger] b.spec_contains_box(r)),
{
    if start == end {
        return Aabb::empty();
    }
    let mut r = objects[start].bbox;
    let mut i = start + 1;
    while i < end
        invariant
            start < i <= end <= objects@.len(),
            forall|j: int| start <= j < i ==> r.spec_contains_box((#[trigger] objects@[j]).bbox),
            forall|b: Aabb|
                (forall|j: int|
                    start <= j < i ==> b.spec_contains_box((#[trigger] objects@[j]).bbox)) ==> (
                #[trigger] b.spec_contains_box(r)),
        decreases end - i,
    {
        let ghost r0 = r;
        r = Aabb::wrap_boxes(&r, &objects[i].bbox);
        proof {
            assert forall|b: Aabb|
                (forall|j: int|
                    start <= j < i + 1 ==> b.spec_contains_box(
                        (#[trigger] objects@[j]).bbox,
                    )) implies (#[trigger] b.spec_contains_box(r)) by {
                assert(b.spec_contains_box(r0));
                assert(b.spec_contains_box(objects@[i as int].bbox));
            }
        }
        i = i + 1;
    }
    r
}

/// Exchanges two primitives in place; the array holds the same
/// primitives afterwards.
fn swap_prims(v: &mut Vec<Prim>, a: usize, b: usize)
    requires
        a < old(v)@.len(),
        b < old(v)@.len(),
    ensures
        final(v)@.len() == old(v)@.len(),
        final(v)@[a as int] == old(v)@[b as int],
        final(v)@[b as int] == old(v)@[a as int],
        forall|k: int| 0 <= k < old(v)@.len() && k != a && k != b ==> final(v)@[k] == old(v)@[k],
        final(v)@.to_multiset() == old(v)@.to_multiset(),
{
    proof {
        broadcast use vstd::seq_lib::to_multiset_update;
        broadcast use vstd::seq_lib::to_multiset_contains;
        broadcast use vstd::multiset::group_multiset_axioms;

    }
    if a != b {
        let va = v[a];
        let vb = v[b];
        v.set(a, vb);
        v.set(b, va);
        proof {
            let s0 = old(v)@;
            let s1 = s0.update(a as int, s0[b as int]);
            let s2 = s1.update(b as int, s0[a as int]);
            assert(v@ == s2);
            assert(s1.to_multiset() == s0.to_multiset().insert(s0[b as int]).remove(s0[a as int]));
            assert(s2.to_multiset() == s1.to_multiset().insert(s0[a as int]).remove(s1[b as int]));
            assert(s1[b as int] == s0[b as int]);
            assert(s0.contains(s0[a as int]));
            assert(s0.to_multiset().count(s0[a as int]) > 0);
            assert(s2.to_multiset() =~= s0.to_multiset());
        }
    } else {
        proof {
            assert(v@ =~= old(v)@);
        }
    }
}

/// The primitive's sort key along `axis`.
fn key_of(p: &Prim, axis: &Axis) -> (r: i64)
    ensures
        r as int == prim_key(*p, *axis),
{
    match axis {
        Axis::X => p.bbox.min.x,
        Axis::Y => p.bbox.min.y,
        Axis::Z => p.bbox.min.z,
    }
}

/// Sorts `objects[start..end)` by box minimum along `axis`, touching
/// nothing outside the range and keeping the same primitives.
#[verifier::loop_isolation(false)]
fn sort_range(objects: &mut Vec<Prim>, start: usize, end: usize, axis: &Axis)
    requires
        start <= end <= old(objects)@.len(),
    ensures
        final(objects)@.len() == old(objects)@.len(),
        forall|k: int|
            (0 <= k < start || end <= k < old(objects)@.len())
                ==> final(objects)@[k] == old(objects)@[k],
        final(objects)@.to_multiset() == old(objects)@.to_multiset(),
        sorted_by_key(final(objects)@, start as int, end as int, *axis),
{
    let mut i = start;
    while i < end
        invariant
            start <= i <= end,
            objects@.len() == old(objects)@.len(),
            forall|k: int|
                (0 <= k < start || end <= k < old(objects)@.len())
                    ==> objects@[k] == old(objects)@[k],
            objects@.to_multiset() == old(objects)@.to_multiset(),
            sorted_by_key(objects@, start as int, i as int, *axis),
            forall|a: int, b: int|
                start <= a < i <= b < end ==> prim_key(objects@[a], *axis) <= prim_key(
                    objects@[b],
                    *axis,
                ),
        decreases end - i,
    {
        let mut m = i;
        let mut j = i + 1;
        while j < end
            invariant
                i <= m < j <= end,
                forall|k: int|
                    i <= k < j ==> prim_key(objects@[m as int], *axis) <= prim_key(
                        objects@[k],
                        *axis,
                    ),
            decreases end - j,
        {
            if key_of(&objects[j], axis) < key_of(&objects[m], axis) {
                m = j;
            }
            j = j + 1;
        }
        swap_prims(objects, i, m);
        i = i + 1;
    }
}

/// Saturating product, used only to score candidate splits.
fn sat_mul(a: u128, b: u128) -> u128 {
    match a.checked_mul(b) {
        Some(r) => r,
        None => u128::MAX,
    }
}

/// Saturating sum, used only to score candidate splits.
fn sat_add(a: u128, b: u128) -> u128 {
    match a.checked_add(b) {
        Some(r) => r,
        None => u128::MAX,
    }
}

/// The surface-area measure of a box, saturated into `u128`; a scoring
/// heuristic only, so its exact value carries no contract.
fn sa_estimate(b: &Aabb) -> u128 {
    let x = extent(b.min.x, b.max.x);
    let y = extent(b.min.y, b.max.y);
    let z = extent(b.min.z, b.max.z);
    sat_mul(2, sat_add(sat_add(sat_mul(x, y), sat_mul(y, z)), sat_mul(z, x)))
}

/// A box extent clamped below at zero.
fn extent(min: i64, max: i64) -> (r: u128)
    ensures
        min <= max ==> r == max - min,
        min > max ==> r == 0,
{
    if min <= max {
        (max as i128 - min as i128) as u128
    } else {
        0
    }
}

/// Picks the split point of `objects[start..end)` with the lowest
/// surface-area-heuristic cost among candidates sampled at a stride of
/// about a sixteenth of the range. Which point wins is a tuning choice;
/// the contract fixes only that the split is interior.
#[verifier::loop_isolation(false)]
fn choose_split(objects: &Vec<Prim>, start: usize, end: usize) -> (mid: usize)
    requires
        start + 1 < end <= objects@.len(),
    ensures
        start < mid < end,
{
    let span = end - start;
    let stride = if span / 16 >= 1 {
        span / 16
    } else {
        1
    };
    let mut best = start + 1;
    let mut best_cost = u128::MAX;
    let mut split = start + 1;
    while split < end
        invariant
            start < best < end,
            start < split,
            stride >= 1,
        decreases end - split,
    {
        let left = wrap_prims(objects, start, split);
        let right = wrap_prims(objects, split, end);
        let cost = sat_add(
            sat_mul(sa_estimate(&left), (split - start) as u128),
            sat_mul(sa_estimate(&right), (end - split) as u128),
        );
        if cost < best_cost {
            best = split;
            best_cost = cost;
        }
        split = if end - split > stride {
            split + stride
        } else {
            end
        };
    }
    best
}

/// Builds the subtree over `objects[start..end)` at the given depth,
/// appending its nodes to the arena with the subtree root last. Small or
/// deep ranges become leaves; larger ranges are sorted along the longest
/// axis of their bounding box and split at the chosen point.
#[verifier::loop_isolation(false)]
fn build_range(
    objects: &mut Vec<Prim>,
    tree: &mut Vec<BvhNode>,
    start: usize,
    end: usize,
    depth: u32,
) -> (root: usize)
    requires
        start < end <= old(objects)@.len(),
    ensures
        final(objects)@.len() == old(objects)@.len(),
        forall|k: int|
            (0 <= k < start || end <= k < old(objects)@.len())
                ==> final(objects)@[k] == old(objects)@[k],
        final(objects)@.to_multiset() == old(objects)@.to_multiset(),
        final(tree)@.len() > old(tree)@.len(),
        root == final(tree)@.len() - 1,
        forall|k: int| 0 <= k < old(tree)@.len() ==> final(tree)@[k] == old(tree)@[k],
        forall|k: int|
            old(tree)@.len() <= k < final(tree)@.len() ==> wf_node(final(tree)@, final(objects)@, k)
                && start <= (#[trigger] final(tree)@[k]).start && final(tree)@[k].end <= end,
        final(tree)@[root as int].start == start,
        final(tree)@[root as int].end == end,
        final(tree)@[root as int].depth == depth,
    decreases end - start,
{
    let span = end - start;
    if span <= LEAF_CUTOFF || depth >= BVH_MAX_DEPTH {
        let bbox = wrap_prims(objects, start, end);
        tree.push(BvhNode { bbox, start, end, depth, children: None });
        proof {
            assert(objects@.to_multiset() =~= old(objects)@.to_multiset());
            assert forall|k: int|
                old(tree)@.len() <= k < tree@.len() implies wf_node(tree@, objects@, k) && start <= (
            #[trigger] tree@[k]).start && tree@[k].end <= end by {
                assert(tree@[k] == tree@[tree@.len() - 1]);
            }
        }
        return tree.len() - 1;
    }
    let bbox_all = wrap_prims(objects, start, end);
    let axis = bbox_all.longest_axis();
    sort_range(objects, start, end, &axis);
    let mid = choose_split(objects, start, end);
    let ghost objects_before_left = objects@;
    let ghost tree_before_left = tree@;
    let left = build_range(objects, tree, start, mid, depth + 1);
    let ghost objects_before_right = objects@;
    let ghost tree_before_right = tree@;
    let right = build_range(objects, tree, mid, end, depth + 1);
    proof {
        // Nodes of the left subtree stay well-formed: the right build
        // changed neither them nor the primitives in their ranges.
        assert forall|k: int|
            tree_before_left.len() <= k < tree_before_right.len() implies wf_node(
            tree@,
            objects@,
            k,
        ) by {
            lemma_wf_node_stable(tree_before_right, tree@, objects_before_right, objects@, k);
        }
    }
    let bbox = wrap_prims(objects, start, end);
    let ghost tree_before_push = tree@;
    tree.push(BvhNode { bbox, start, end, depth, children: Some((left, right)) });
    proof {
        let t = tree@;
        let root = t.len() - 1;
        assert(t.drop_last() =~= tree_before_push);
        assert forall|k: int|
            tree_before_left.len() <= k < t.len() implies wf_node(t, objects@, k) && start <= (
        #[trigger] t[k]).start && t[k].end <= end by {
            if k < root {
                assert(wf_node(tree_before_push, objects@, k));
                lemma_wf_node_stable(tree_before_push, t, objects@, objects@, k);
            } else {
                assert(t[root as int].start == start && t[root as int].end == end);
            }
        }
    }
    tree.len() - 1
}

/// A node stays well-formed when the arena is extended past it and the
/// primitives of its range are untouched.
proof fn lemma_wf_node_stable(
    t1: Seq<BvhNode>,
    t2: Seq<BvhNode>,
    p1: Seq<Prim>,
    p2: Seq<Prim>,
    k: int,
)
    requires
        wf_node(t1, p1, k),
        t1.len() <= t2.len(),
        forall|i: int| 0 <= i < t1.len() ==> t2[i] == t1[i],
        p1.len() == p2.len(),
        forall|j: int| t1[k].start <= j < t1[k].end ==> p2[j] == p1[j],
    ensures
        wf_node(t2, p2, k),
{
    assert forall|j: int|
        t2[k].start <= j < t2[k].end implies t2[k].bbox.spec_contains_box(
        (#[trigger] p2[j]).bbox,
    ) by {
        assert(p2[j] == p1[j]);
    }
}

/// The hierarchy: an arena of nodes whose root is the last entry.
#[derive(Clone, Debug)]
pub struct Bvh {
    pub tree: Vec<BvhNode>,
}

impl Bvh {
    /// Builds the hierarchy over the primitives, reordering them in
    /// place. Afterwards the arena is well-formed for the reordered
    /// array, which holds exactly the primitives it was given.
    pub fn new(objects: &mut Vec<Prim>) -> (r: Bvh)
        requires
            old(objects)@.len() >= 1,
        ensures
            final(objects)@.len() == old(objects)@.len(),
            final(objects)@.to_multiset() == old(objects)@.to_multiset(),
            wf(r.tree@, final(objects)@),
    {
        let mut tree: Vec<BvhNode> = Vec::new();
        let n = objects.len();
        build_range(objects, &mut tree, 0, n, 0);
        Bvh { tree }
    }

    /// Reports the position of every primitive whose box meets the query
    /// box, pruning subtrees whose node box misses it. The traversal is
    /// stack-based; the order in which children are pushed is a
    /// performance heuristic with no bearing on the answer.
    #[verifier::loop_isolation(false)]
    pub fn query(&self, prims: &Vec<Prim>, qbox: &Aabb) -> (out: Vec<usize>)
        requires
            wf(self.tree@, prims@),
        ensures
            answers(out@, prims@, *qbox),
            out@.no_duplicates(),
    {
        let tree = &self.tree;
        let mut out: Vec<usize> = Vec::new();
        let mut stack: Vec<usize> = Vec::new();
        stack.push(tree.len() - 1);
        proof {
            assert(stack@[0] == tree@.len() - 1);
            assert(tree@[tree@.len() - 1].start == 0);
            assert(tree@[tree@.len() - 1].end == prims@.len());
        }
        while stack.len() > 0
            invariant
                forall|k: int| 0 <= k < stack@.len() ==> (stack@[k] as int) < tree@.len(),
                forall|k: int|
                    0 <= k < out@.len() ==> (out@[k] as int) < prims@.len() && prims@[out@[k] as int].bbox.spec_intersects(
                        *qbox,
                    ),
                forall|p: int|
                    0 <= p < prims@.len() && (#[trigger] prims@[p]).bbox.spec_intersects(*qbox)
                        ==> out@.contains(p as usize) || exists|k: int|
                        0 <= k < stack@.len() && tree@[(#[trigger] stack@[k]) as int].start <= p
                            < tree@[stack@[k] as int].end,
                out@.no_duplicates(),
                forall|j: int, k: int|
                    0 <= j < out@.len() && 0 <= k < stack@.len() ==> !(
                    tree@[(#[trigger] stack@[k]) as int].start <= #[trigger] out@[j]
                        < tree@[stack@[k] as int].end),
                forall|k1: int, k2: int|
                    0 <= k1 < k2 < stack@.len() ==> ranges_disjoint(
                        tree@,
                        (#[trigger] stack@[k1]) as int,
                        (#[trigger] stack@[k2]) as int,
                    ),
            decreases stack_weight(tree@, stack@),
        {
            let ghost stack0 = stack@;
            let i = stack.pop().unwrap();
            proof {
                assert(stack0.drop_last() =~= stack@);
                assert(wf_node(tree@, prims@, i as int));
                lemma_stack_weight_pop(tree@, stack0);
            }
            let node = tree[i];
            match node.children {
                None => {
                    let ghost out0 = out@;
                    scan_leaf(prims, qbox, node.start, node.end, &mut out);
                    proof {
                        // No duplicates: old answers kept their order, the
                        // new ones are strictly increasing, and the old ones
                        // lie outside the popped leaf's range.
                        assert forall|j1: int, j2: int|
                            0 <= j1 < j2 < out@.len() implies out@[j1] != out@[j2] by {
                            if j2 < out0.len() {
                                assert(out@[j1] == out0[j1] && out@[j2] == out0[j2]);
                            } else if j1 < out0.len() {
                                assert(!(node.start <= out0[j1] < node.end));
                                assert(node.start <= (out@[j2] as int) < node.end);
                            }
                        }
                        // New answers lie in the popped range, which is
                        // disjoint from every node still stacked.
                        assert forall|j: int, k: int|
                            0 <= j < out@.len() && 0 <= k < stack@.len() implies !(
                        tree@[(#[trigger] stack@[k]) as int].start <= #[trigger] out@[j]
                            < tree@[stack@[k] as int].end) by {
                            assert(stack@[k] == stack0[k]);
                            assert(ranges_disjoint(tree@, i as int, stack0[k] as int) || !(
                            tree@[stack0[k] as int].start <= out@[j]
                                < tree@[stack0[k] as int].end));
                        }
                        assert forall|p: int|
                            0 <= p < prims@.len() && (#[trigger] prims@[p]).bbox.spec_intersects(
                                *qbox,
                            ) implies out@.contains(p as usize) || exists|k: int|
                            0 <= k < stack@.len() && tree@[(#[trigger] stack@[k]) as int].start
                                <= p < tree@[stack@[k] as int].end by {
                            if !(node.start <= p < node.end) {
                                if !out@.contains(p as usize) {
                                    let k = choose|k: int|
                                        0 <= k < stack0.len() && tree@[(#[trigger] stack0[k]) as int].start
                                            <= p < tree@[stack0[k] as int].end;
                                    assert(k < stack0.len() - 1);
                                    assert(stack@[k] == stack0[k]);
                                }
                            }
                        }
                    }
                },
                Some((l, r)) => {
                    let ghost stack1 = stack@;
                    let hit_left = tree[l].bbox.intersects(qbox);
                    let hit_right = tree[r].bbox.intersects(qbox);
                    if hit_left {
                        stack.push(l);
                    }
                    if hit_right {
                        stack.push(r);
                    }
                    proof {
                        let wl = weight(tree@, l as int);
                        let wr = weight(tree@, r as int);
                        assert(wf_node(tree@, prims@, l as int));
                        assert(wf_node(tree@, prims@, r as int));
                        assert(weight(tree@, i as int) == 1nat + wl + wr);
                        if hit_left && hit_right {
                            assert(stack@ =~= stack1.push(l).push(r));
                            lemma_stack_weight_push(tree@, stack1, l);
                            lemma_stack_weight_push(tree@, stack1.push(l), r);
                        } else if hit_left {
                            lemma_stack_weight_push(tree@, stack1, l);
                        } else if hit_right {
                            lemma_stack_weight_push(tree@, stack1, r);
                        }
                        assert forall|p: int|
                            0 <= p < prims@.len() && (#[trigger] prims@[p]).bbox.spec_intersects(
                                *qbox,
                            ) implies out@.contains(p as usize) || exists|k: int|
                            0 <= k < stack@.len() && tree@[(#[trigger] stack@[k]) as int].start
                                <= p < tree@[stack@[k] as int].end by {
                            if !out@.contains(p as usize) {
                                let k0 = choose|k: int|
                                    0 <= k < stack0.len() && tree@[(#[trigger] stack0[k]) as int].start
                                        <= p < tree@[stack0[k] as int].end;
                                if k0 < stack0.len() - 1 {
                                    assert(stack@[k0] == stack0[k0]);
                                } else {
                                    // p lies in the popped node's range, so in one child's.
                                    let child = if p < tree@[l as int].end {
                                        l
                                    } else {
                                        r
                                    };
                                    assert(tree@[child as int].start <= p < tree@[child as int].end);
                                    assert(tree@[child as int].bbox.spec_contains_box(
                                        prims@[p].bbox,
                                    ));
                                    lemma_contained_intersects(
                                        tree@[child as int].bbox,
                                        prims@[p].bbox,
                                        *qbox,
                                    );
                                    if child == l {
                                        assert(hit_left);
                                        assert(stack@[stack1.len() as int] == l);
                                    } else {
                                        assert(hit_right);
                                        assert(stack@[stack@.len() - 1] == r);
                                    }
                                }
                            }
                        }
                        // The pushed children stay inside the popped range,
                        // so answers and the rest of the stack remain clear
                        // of every stacked range.
                        assert(tree@[l as int].start == node.start && tree@[l as int].end
                            <= node.end);
                        assert(tree@[r as int].end == node.end && node.start
                            <= tree@[r as int].start);
                        assert forall|j: int, k: int|
                            0 <= j < out@.len() && 0 <= k < stack@.len() implies !(
                        tree@[(#[trigger] stack@[k]) as int].start <= #[trigger] out@[j]
                            < tree@[stack@[k] as int].end) by {
                            if k < stack1.len() {
                                assert(stack@[k] == stack0[k]);
                            } else {
                                assert(stack@[k] == l || stack@[k] == r);
                                assert(!(node.start <= out@[j] < node.end));
                            }
                        }
                        assert forall|k1: int, k2: int|
                            0 <= k1 < k2 < stack@.len() implies ranges_disjoint(
                            tree@,
                            (#[trigger] stack@[k1]) as int,
                            (#[trigger] stack@[k2]) as int,
                        ) by {
                            if k2 < stack1.len() {
                                assert(stack@[k1] == stack0[k1] && stack@[k2] == stack0[k2]);
                            } else if k1 < stack1.len() {
                                assert(stack@[k1] == stack0[k1]);
                                assert(stack@[k2] == l || stack@[k2] == r);
                                assert(ranges_disjoint(tree@, stack0[k1] as int, i as int));
                            } else {
                                assert(stack@[k1] == l && stack@[k2] == r);
                            }
                        }
                    }
                },
            }
        }
        out
    }
}

/// Stack weight grows by exactly the pushed node's weight.
proof fn lemma_stack_weight_push(tree: Seq<BvhNode>, stack: Seq<usize>, x: usize)
    ensures
        stack_weight(tree, stack.push(x)) == stack_weight(tree, stack) + weight(tree, x as int),
{
    assert(stack.push(x).drop_last() =~= stack);
    assert(stack.push(x).last() == x);
}

/// Stack weight shrinks by exactly the popped node's weight.
proof fn lemma_stack_weight_pop(tree: Seq<BvhNode>, stack: Seq<usize>)
    requires
        stack.len() > 0,
    ensures
        stack_weight(tree, stack) == stack_weight(tree, stack.drop_last()) + weight(
            tree,
            stack.last() as int,
        ),
{
}

/// Tests every primitive of `prims[start..end)` against the query box
/// and appends the positions that intersect, leaving earlier answers in
/// place.
#[verifier::loop_isolation(false)]
fn scan_leaf(prims: &Vec<Prim>, qbox: &Aabb, start: usize, end: usize, out: &mut Vec<usize>)
    requires
        start <= end <= prims@.len(),
    ensures
        final(out)@.len() >= old(out)@.len(),
        forall|k: int| 0 <= k < old(out)@.len() ==> final(out)@[k] == old(out)@[k],
        forall|k: int|
            old(out)@.len() <= k < final(out)@.len() ==> start <= (final(out)@[k] as int) < end
                && prims@[final(out)@[k] as int].bbox.spec_intersects(*qbox),
        forall|p: int|
            start <= p < end && (#[trigger] prims@[p]).bbox.spec_intersects(*qbox)
                ==> final(out)@.contains(p as usize),
        forall|v: usize| old(out)@.contains(v) ==> final(out)@.contains(v),
        forall|k1: int, k2: int|
            old(out)@.len() <= k1 < k2 < final(out)@.len() ==> final(out)@[k1] < final(out)@[k2],
{
    let mut j = start;
    while j < end
        invariant
            start <= j <= end,
            out@.len() >= old(out)@.len(),
            forall|k: int| 0 <= k < old(out)@.len() ==> out@[k] == old(out)@[k],
            forall|k: int|
                old(out)@.len() <= k < out@.len() ==> start <= (out@[k] as int) < end
                    && prims@[out@[k] as int].bbox.spec_intersects(*qbox),
            forall|p: int|
                start <= p < j && (#[trigger] prims@[p]).bbox.spec_intersects(*qbox)
                    ==> out@.contains(p as usize),
            forall|k1: int, k2: int|
                old(out)@.len() <= k1 < k2 < out@.len() ==> out@[k1] < out@[k2],
            forall|k: int| old(out)@.len() <= k < out@.len() ==> (out@[k] as int) < j,
        decreases end - j,
    {
        let ghost out_prev = out@;
        if prims[j].bbox.intersects(qbox) {
            out.push(j);
            proof {
                assert(out@[out@.len() - 1] == j);
                assert forall|v: usize| out_prev.contains(v) implies out@.contains(v) by {
                    let k = choose|k: int| 0 <= k < out_prev.len() && out_prev[k] == v;
                    assert(out@[k] == v);
                }
            }
        }
        j = j + 1;
    }
    proof {
        assert forall|v: usize| old(out)@.contains(v) implies out@.contains(v) by {
            let k = choose|k: int| 0 <= k < old(out)@.len() && old(out)@[k] == v;
            assert(out@[k] == v);
        }
    }
}

/// The brute-force fallback: a linear scan over every primitive,
/// meeting the same characterisation as the accelerated query.
pub fn scan_query(prims: &Vec<Prim>, qbox: &Aabb) -> (out: Vec<usize>)
    ensures
        answers(out@, prims@, *qbox),
        out@.no_duplicates(),
{
    let mut out: Vec<usize> = Vec::new();
    scan_leaf(prims, qbox, 0, prims.len(), &mut out);
    proof {
        assert forall|j1: int, j2: int|
            0 <= j1 < j2 < out@.len() implies out@[j1] != out@[j2] by {
            assert(out@[j1] < out@[j2]);
        }
    }
    out
}

/// Two duplicate-free answer lists with the same positions hold the same
/// multiset of positions: the accelerated query reports each hit
/// primitive exactly once, just as the linear scan does.
pub proof fn lemma_answers_same_multiset(a: Seq<usize>, b: Seq<usize>)
    requires
        a.no_duplicates(),
        b.no_duplicates(),
        forall|p: usize| a.contains(p) <==> b.contains(p),
    ensures
        a.to_multiset() == b.to_multiset(),
{
    broadcast use vstd::seq_lib::to_multiset_contains;

    a.lemma_multiset_has_no_duplicates();
    b.lemma_multiset_has_no_duplicates();
    assert forall|x: usize| a.to_multiset().count(x) == b.to_multiset().count(x) by {
        if a.contains(x) {
            assert(a.to_multiset().count(x) == 1 && b.to_multiset().count(x) == 1);
        } else {
            assert(a.to_multiset().count(x) == 0 && b.to_multiset().count(x) == 0);
        }
    }
    assert(a.to_multiset() =~= b.to_multiset());
}

/// Among the reported candidate positions, the one whose hit parameter is
/// smallest — the "closest so far" selection of a nearest-hit search,
/// with each candidate's parameter supplied in `tvals`.
pub fn closest_of(indices: &Vec<usize>, tvals: &Vec<u64>) -> (r: Option<usize>)
    requires
        forall|k: int| 0 <= k < indices@.len() ==> (#[trigger] indices@[k] as int) < tvals@.len(),
    ensures
        match r {
            Some(i) => {
                &&& indices@.contains(i)
                &&& (i as int) < tvals@.len()
                &&& forall|k: int|
                    0 <= k < indices@.len() ==> tvals@[i as int] <= tvals@[
                        #[trigger] indices@[k] as int
                    ]
            },
            None => indices@.len() == 0,
        },
{
    if indices.len() == 0 {
        return None;
    }
    let mut best: usize = indices[0];
    let mut k: usize = 1;
    proof {
        assert(indices@[0] == best);
    }
    while k < indices.len()
        invariant
            1 <= k <= indices@.len(),
            forall|j: int| 0 <= j < indices@.len() ==> (#[trigger] indices@[j] as int) < tvals@.len(),
            indices@.contains(best),
            (best as int) < tvals@.len(),
            forall|j: int|
                0 <= j < k ==> tvals@[best as int] <= tvals@[#[trigger] indices@[j] as int],
        decreases indices@.len() - k,
    {
        let cand = indices[k];
        if tvals[cand] < tvals[best] {
            best = cand;
            proof {
                assert(indices@[k as int] == best);
            }
        }
        k = k + 1;
    }
    Some(best)
}

/// Nearest hits agree: when two candidate lists hold the same positions —
/// as the accelerated query and the linear scan do — their minimal hit
/// parameters are equal, misses included (both lists are then empty).
pub proof fn lemma_nearest_agrees(
    a: Seq<usize>,
    b: Seq<usize>,
    tvals: Seq<u64>,
    i: usize,
    j: usize,
)
    requires
        forall|p: usize| a.contains(p) <==> b.contains(p),
        a.contains(i),
        b.contains(j),
        (i as int) < tvals.len(),
        (j as int) < tvals.len(),
        forall|k: int| 0 <= k < a.len() ==> (#[trigger] a[k] as int) < tvals.len(),
        forall|k: int| 0 <= k < b.len() ==> (#[trigger] b[k] as int) < tvals.len(),
        forall|k: int| 0 <= k < a.len() ==> tvals[i as int] <= tvals[#[trigger] a[k] as int],
        forall|k: int| 0 <= k < b.len() ==> tvals[j as int] <= tvals[#[trigger] b[k] as int],
    ensures
        tvals[i as int] == tvals[j as int],
{
    assert(b.contains(i));
    let ki = choose|k: int| 0 <= k < b.len() && b[k] == i;
    assert(tvals[j as int] <= tvals[b[ki] as int]);
    assert(a.contains(j));
    let kj = choose|k: int| 0 <= k < a.len() && a[k] == j;
    assert(tvals[i as int] <= tvals[a[kj] as int]);
}

} // verus!
