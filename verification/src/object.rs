//! Capability contracts of the collaborators the query pipeline composes:
//! exact geometric tests, collision objects, object sets and the broad
//! phase.

use vstd::prelude::*;

verus! {

use crate::geometry::{AABB, Ray, RayIntersection};
use crate::groups::CollisionGroups;
use crate::math::Vec2;

/// Capability of shapes answering an exact ray test.
pub trait RayCast<M> {
    /// The outcome of the ray test, as the model sees it.
    spec fn toi_spec(&self, m: M, ray: Ray, solid: bool) -> Option<RayIntersection>;

    /// Computes the time of impact and the surface vector of a ray on this
    /// shape placed by `m`, or nothing when the ray misses it. With `solid`,
    /// a ray starting inside the shape hits at time zero.
    fn toi_and_normal_with_ray(&self, m: &M, ray: &Ray, solid: bool) -> (r: Option<
        RayIntersection,
    >)
        ensures
            r == self.toi_spec(*m, *ray, solid),
    ;
}

/// Capability of shapes answering an exact point-containment test.
pub trait PointQuery<M> {
    /// The outcome of the containment test, as the model sees it.
    spec fn contains_point_spec(&self, m: M, point: Vec2) -> bool;

    /// Tests whether this shape, placed by `m`, contains the point.
    fn contains_point(&self, m: &M, point: &Vec2) -> (r: bool)
        ensures
            r == self.contains_point_spec(*m, *point),
    ;
}

/// A collision object, as the object set hands it out: it exposes its shape,
/// its current placement and its collision group filter.
pub trait CollisionObjectRef<SH, M> {
    /// The shape, as the model sees it.
    spec fn shape_spec(&self) -> SH;

    /// The placement, as the model sees it.
    spec fn position_spec(&self) -> M;

    /// The group filter, as the model sees it.
    spec fn collision_groups_spec(&self) -> CollisionGroups;

    /// The shape of this object.
    fn shape(&self) -> (s: &SH)
        ensures
            *s == self.shape_spec(),
    ;

    /// The current world placement of this object.
    fn position(&self) -> (m: M)
        ensures
            m == self.position_spec(),
    ;

    /// The collision group filter of this object.
    fn collision_groups(&self) -> (g: CollisionGroups)
        ensures
            g == self.collision_groups_spec(),
    ;
}

/// The store of collision objects, addressed by opaque copyable handles.
pub trait CollisionObjectSet<CO> {
    /// The object a handle resolves to, or nothing for a stale handle.
    spec fn get_spec(&self, handle: u64) -> Option<CO>;

    /// Resolves a handle. A stale or unknown handle resolves to nothing; it
    /// is not an error.
    fn get(&self, handle: u64) -> (r: Option<&CO>)
        ensures
            match r {
                Option::Some(co) => self.get_spec(handle) == Option::Some(*co),
                Option::None => self.get_spec(handle) is None,
            },
    ;
}

/// The broad phase: a spatial index producing, for each query primitive, a
/// conservative superset of the handles whose objects may interfere with it.
/// Each query appends its candidates to the given vector, in an order that
/// is unspecified but deterministic for a given index state and input.
pub trait BroadPhase {
    /// The candidate handles for a ray, as the model sees them.
    spec fn ray_candidates_spec(&self, ray: Ray) -> Seq<u64>;

    /// The candidate handles for a point, as the model sees them.
    spec fn point_candidates_spec(&self, point: Vec2) -> Seq<u64>;

    /// The candidate handles for a bounding volume, as the model sees them.
    spec fn aabb_candidates_spec(&self, aabb: AABB) -> Seq<u64>;

    /// Appends the handles of the objects that may intersect the ray.
    fn interferences_with_ray(&self, ray: &Ray, out: &mut Vec<u64>)
        ensures
            final (out)@ == old(out)@ + self.ray_candidates_spec(*ray),
    ;

    /// Appends the handles of the objects that may contain the point.
    fn interferences_with_point(&self, point: &Vec2, out: &mut Vec<u64>)
        ensures
            final (out)@ == old(out)@ + self.point_candidates_spec(*point),
    ;

    /// Appends the handles of the objects whose bounding volume may overlap
    /// the given one.
    fn interferences_with_bounding_volume(&self, aabb: &AABB, out: &mut Vec<u64>)
        ensures
            final (out)@ == old(out)@ + self.aabb_candidates_spec(*aabb),
    ;
}

} // verus!
