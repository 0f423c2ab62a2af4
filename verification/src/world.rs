//! Simple, fully verified collaborators: a slot-based object set, a
//! brute-force broad phase and a plain collision object. They are enough to
//! run whole queries end to end; richer spatial indexes plug in through the
//! same capability contracts.

use vstd::prelude::*;

verus! {

use crate::geometry::{AABB, Ray, Transform2};
use crate::groups::CollisionGroups;
use crate::math::Vec2;
use crate::object::{BroadPhase, CollisionObjectRef, CollisionObjectSet};

/// A collision object held by value: a shape, its current placement and its
/// group filter.
#[derive(Clone, Copy, PartialEq, Eq, Debug)]
pub struct SimpleCollisionObject<SH> {
    pub shape: SH,
    pub position: Transform2,
    pub groups: CollisionGroups,
}

impl<SH> CollisionObjectRef<SH, Transform2> for SimpleCollisionObject<SH> {
    open spec fn shape_spec(&self) -> SH {
        self.shape
    }

    open spec fn position_spec(&self) -> Transform2 {
        self.position
    }

    open spec fn collision_groups_spec(&self) -> CollisionGroups {
        self.groups
    }

    fn shape(&self) -> (s: &SH) {
        &self.shape
    }

    fn position(&self) -> (m: Transform2) {
        self.position
    }

    fn collision_groups(&self) -> (g: CollisionGroups) {
        self.groups
    }
}

/// An object set backed by a vector of slots: the handle of an object is
/// its slot index, and an emptied slot makes its handle stale.
pub struct SimpleObjectSet<CO> {
    pub slots: Vec<Option<CO>>,
}

impl<CO> CollisionObjectSet<CO> for SimpleObjectSet<CO> {
    open spec fn get_spec(&self, handle: u64) -> Option<CO> {
        if handle < self.slots@.len() {
            self.slots@[handle as int]
        } else {
            Option::None
        }
    }

    fn get(&self, handle: u64) -> (r: Option<&CO>) {
        if handle < self.slots.len() as u64 {
            match &self.slots[handle as usize] {
                Option::Some(co) => Option::Some(co),
                Option::None => Option::None,
            }
        } else {
            Option::None
        }
    }
}

/// A broad phase without a spatial index: it reports every registered
/// handle as a candidate for every query. That is trivially conservative,
/// and leaves all the narrowing to the exact tests and filters.
pub struct BruteForceBroadPhase {
    pub handles: Vec<u64>,
}

impl BroadPhase for BruteForceBroadPhase {
    open spec fn ray_candidates_spec(&self, ray: Ray) -> Seq<u64> {
        self.handles@
    }

    open spec fn point_candidates_spec(&self, point: Vec2) -> Seq<u64> {
        self.handles@
    }

    open spec fn aabb_candidates_spec(&self, aabb: AABB) -> Seq<u64> {
        self.handles@
    }

    fn interferences_with_ray(&self, ray: &Ray, out: &mut Vec<u64>) {
        self.push_all(out);
    }

    fn interferences_with_point(&self, point: &Vec2, out: &mut Vec<u64>) {
        self.push_all(out);
    }

    fn interferences_with_bounding_volume(&self, aabb: &AABB, out: &mut Vec<u64>) {
        self.push_all(out);
    }
}

impl BruteForceBroadPhase {
    /// Appends every registered handle to `out`.
    #[verifier::loop_isolation(false)]
    fn push_all(&self, out: &mut Vec<u64>)
        ensures
            final (out)@ == old(out)@ + self.handles@,
    {
        let mut i: usize = 0;
        while i < self.handles.len()
            invariant
                i <= self.handles.len(),
                out@ == old(out)@ + self.handles@.subrange(0, i as int),
            decreases self.handles.len() - i,
        {
            out.push(self.handles[i]);
            i = i + 1;
            proof {
                assert(out@ =~= old(out)@ + self.handles@.subrange(0, i as int));
            }
        }
        proof {
            assert(out@ =~= old(out)@ + self.handles@);
        }
    }
}

} // verus!
