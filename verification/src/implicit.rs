//! Support-mapping capabilities for convex shapes.
//!
//! A shape with the [`Implicit`] capability answers, for a rigid transform
//! and a non-zero direction, which of its points lies furthest along that
//! direction. The margin-aware support point is never implemented by a shape
//! itself: it is always the margin-free support point translated by the
//! normalized direction scaled by the shape's margin.

use vstd::prelude::*;

verus! {

use crate::math::{
    Vec2, abs_spec, margin_offset, margin_offset_spec, lemma_margin_offset_zero, vec2_add,
    vec2_is_zero,
};

/// Capability of geometries having a margin: a constant, non-negative offset
/// by which the true boundary is uniformly inflated for numerical
/// robustness.
pub trait HasMargin {
    /// The margin, as the model sees it.
    spec fn margin_spec(&self) -> i64;

    /// The geometry margin.
    fn margin(&self) -> (m: i64)
        ensures
            m == self.margin_spec(),
            m >= 0,
    ;
}

/// A borrowed geometry reports the margin of its referent.
impl<'a, S: HasMargin> HasMargin for &'a S {
    open spec fn margin_spec(&self) -> i64 {
        (**self).margin_spec()
    }

    fn margin(&self) -> (m: i64) {
        (**self).margin()
    }
}

/// The margin-aware support point: the margin-free support point translated
/// by the normalized direction scaled by the margin.
pub open spec fn support_point_model<M, S: Implicit<M> + ?Sized>(s: &S, transform: M, dir: Vec2) -> Vec2 {
    vec2_add(
        s.support_point_without_margin_spec(transform, dir),
        margin_offset_spec(dir, s.margin_spec()),
    )
}

/// Capability of convex geometries representable by a support mapping: a
/// function associating to a direction the geometry point which maximizes
/// their dot product.
pub trait Implicit<M>: HasMargin {
    /// The margin-free support point, as the model sees it.
    spec fn support_point_without_margin_spec(&self, transform: M, dir: Vec2) -> Vec2;

    /// Evaluates the support function of the object, without the margin.
    /// This is the only operation a concrete shape must supply. The
    /// direction does not have to be normalized.
    fn support_point_without_margin(&self, transform: &M, dir: &Vec2) -> (p: Vec2)
        ensures
            p == self.support_point_without_margin_spec(*transform, *dir),
    ;

    /// Evaluates the support function of the object, margin included. The
    /// direction must be non-zero, and the margin-free support point must
    /// leave room for the margin on both coordinates.
    fn support_point(&self, transform: &M, dir: &Vec2) -> (p: Vec2)
        requires
            !vec2_is_zero(*dir),
            self.support_point_without_margin_spec(*transform, *dir).x + self.margin_spec()
                <= i64::MAX,
            i64::MIN <= self.support_point_without_margin_spec(*transform, *dir).x
                - self.margin_spec(),
            self.support_point_without_margin_spec(*transform, *dir).y + self.margin_spec()
                <= i64::MAX,
            i64::MIN <= self.support_point_without_margin_spec(*transform, *dir).y
                - self.margin_spec(),
        ensures
            p == vec2_add(
                self.support_point_without_margin_spec(*transform, *dir),
                margin_offset_spec(*dir, self.margin_spec()),
            ),
    {
        let wo_margin = self.support_point_without_margin(transform, dir);
        let m = self.margin();
        let off = margin_offset(dir, m);
        proof {
            assert(abs_spec(off.x as int) <= m);
            assert(abs_spec(off.y as int) <= m);
        }
        Vec2 { x: wo_margin.x + off.x, y: wo_margin.y + off.y }
    }
}

/// A borrowed geometry delegates both support operations to its referent.
impl<'a, M, S: Implicit<M>> Implicit<M> for &'a S {
    open spec fn support_point_without_margin_spec(&self, transform: M, dir: Vec2) -> Vec2 {
        (**self).support_point_without_margin_spec(transform, dir)
    }

    fn support_point_without_margin(&self, transform: &M, dir: &Vec2) -> (p: Vec2) {
        (**self).support_point_without_margin(transform, dir)
    }
}

/// Capability of geometries having preferred sampling directions (usually
/// the face normals) for sampling-based algorithms consuming the support
/// mapping.
pub trait PreferedSamplingDirections<M> {
    /// The preferred sampling directions, as the model sees them.
    spec fn sampling_directions_spec(&self, transform: M) -> Seq<Vec2>;

    /// Enumerates the preferred sampling directions of this geometry under
    /// the given transform.
    fn sample(&self, transform: &M) -> (dirs: Vec<Vec2>)
        ensures
            dirs@ == self.sampling_directions_spec(*transform),
    ;
}

/// Law: a borrowed shape reports the margin of its referent; delegation
/// through a reference is transparent.
pub proof fn lemma_ref_margin_transparent<S: HasMargin>(s: &S)
    ensures
        <&S as HasMargin>::margin_spec(&s) == s.margin_spec(),
{
}

/// Law: a borrowed shape answers both support queries exactly as its
/// referent does.
pub proof fn lemma_ref_support_transparent<M, S: Implicit<M>>(s: &S, transform: M, dir: Vec2)
    ensures
        <&S as Implicit<M>>::support_point_without_margin_spec(&s, transform, dir)
            == s.support_point_without_margin_spec(transform, dir),
        support_point_model::<M, &S>(&s, transform, dir) == support_point_model::<M, S>(
            s,
            transform,
            dir,
        ),
{
}

/// Law: with a zero margin, the margin-aware support point and the
/// margin-free support point coincide.
pub proof fn lemma_support_point_zero_margin<M, S: Implicit<M>>(s: S, transform: M, dir: Vec2)
    requires
        s.margin_spec() == 0,
        !vec2_is_zero(dir),
    ensures
        support_point_model(&s, transform, dir) == s.support_point_without_margin_spec(
            transform,
            dir,
        ),
{
    lemma_margin_offset_zero(dir);
    let w = s.support_point_without_margin_spec(transform, dir);
    assert(vec2_add(w, margin_offset_spec(dir, 0)) == w);
}

} // verus!
