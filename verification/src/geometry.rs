//! Query primitives: rays, ray intersections, axis-aligned bounding boxes and
//! the rigid transform used by the sample shapes.

use vstd::prelude::*;

verus! {

use crate::math::Vec2;

/// A ray: an origin and a direction, both in world coordinates.
#[derive(Clone, Copy, PartialEq, Eq, Structural, Debug)]
pub struct Ray {
    pub origin: Vec2,
    pub dir: Vec2,
}

/// The result of an exact ray test: the time of impact (in units of the ray
/// direction, rounded down) and an outward, unnormalized surface vector at
/// the hit point.
#[derive(Clone, Copy, PartialEq, Eq, Structural, Debug)]
pub struct RayIntersection {
    pub toi: i64,
    pub normal: Vec2,
}

/// An axis-aligned bounding box, given by its two extremal corners.
#[derive(Clone, Copy, PartialEq, Eq, Structural, Debug)]
pub struct AABB {
    pub mins: Vec2,
    pub maxs: Vec2,
}

/// A rigid placement for the sample shapes of this crate. The shapes shipped
/// here are rotation-invariant, so the placement carries a translation only.
#[derive(Clone, Copy, PartialEq, Eq, Structural, Debug)]
pub struct Transform2 {
    pub translation: Vec2,
}

} // verus!
