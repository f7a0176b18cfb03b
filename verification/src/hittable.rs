//! A flat list of primitives with a merged bounding box.
//!
//! This is the hierarchy's leaf material and the whole-scene fallback:
//! the primitives in insertion order, under the invariant that the box
//! wraps every one of them.

use vstd::prelude::*;

use crate::aabb::Aabb;
use crate::bvh::Prim;
use crate::bvh::wrap_prims;

verus! {

#[derive(Clone, Debug)]
pub struct HittableList {
    pub objects: Vec<Prim>,
    pub bbox: Aabb,
}

impl HittableList {
    /// The box wraps every primitive of the list.
    pub open spec fn spec_wf(self) -> bool {
        forall|i: int|
            0 <= i < self.objects@.len() ==> self.bbox.spec_contains_box(
                (#[trigger] self.objects@[i]).bbox,
            )
    }

    /// A list over the given primitives, with their merged box, which is
    /// the smallest box wrapping them all.
    pub fn new(objects: Vec<Prim>) -> (r: HittableList)
        ensures
            r.objects@ == objects@,
            r.spec_wf(),
            forall|b: Aabb|
                (forall|i: int|
                    0 <= i < objects@.len() ==> b.spec_contains_box(
                        (#[trigger] objects@[i]).bbox,
                    )) ==> (objects@.len() == 0 || #[trigger] b.spec_contains_box(r.bbox)),
    {
        let bbox = wrap_prims(&objects, 0, objects.len());
        HittableList { objects, bbox }
    }

    /// Appends a primitive, growing the box just enough to keep wrapping
    /// everything.
    pub fn add(&mut self, object: Prim)
        requires
            old(self).spec_wf(),
        ensures
            final(self).objects@ == old(self).objects@.push(object),
            final(self).spec_wf(),
    {
        self.bbox = if self.objects.len() == 0 {
            object.bbox
        } else {
            Aabb::wrap_boxes(&self.bbox, &object.bbox)
        };
        self.objects.push(object);
    }
}

} // verus!
