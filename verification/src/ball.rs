//! A ball: the simplest convex shape. Its margin-free support point is its
//! center, so the whole ball is carried by its margin, which equals its
//! radius. It answers exact ray and point tests in exact integer
//! arithmetic, for coordinates within [`COORD_LIMIT`] of the origin.

use vstd::prelude::*;

verus! {

use crate::geometry::{Ray, RayIntersection, Transform2};
use crate::implicit::{HasMargin, Implicit, PreferedSamplingDirections};
use crate::math::{Vec2, isqrt, isqrt_spec, lemma_isqrt_exists, lemma_isqrt_dominates};
use crate::object::{PointQuery, RayCast};

/// The largest coordinate magnitude the exact shape tests support. Queries
/// reaching further from the origin report no interference.
pub const COORD_LIMIT: i64 = 1048576;

/// The largest time of impact the exact ray test reports. A hit beyond it
/// is reported as no hit.
pub const TOI_LIMIT: i64 = 8388608;

/// Both coordinates are within the supported range.
pub open spec fn in_coord_range(v: Vec2) -> bool {
    &&& -COORD_LIMIT <= v.x <= COORD_LIMIT
    &&& -COORD_LIMIT <= v.y <= COORD_LIMIT
}

/// A square of a bounded value is bounded by the square of the bound.
proof fn lemma_sq_bound(x: int, bound: int)
    requires
        -bound <= x <= bound,
    ensures
        0 <= x * x <= bound * bound,
{
    assert(0 <= x * x <= bound * bound) by (nonlinear_arith)
        requires
            -bound <= x <= bound,
    ;
}

/// A product of bounded values is bounded by the product of the bounds.
proof fn lemma_prod_bound(x: int, y: int, bx: int, by: int)
    requires
        -bx <= x <= bx,
        -by <= y <= by,
    ensures
        -(bx * by) <= x * y <= bx * by,
{
    assert(-(bx * by) <= x * y <= bx * by) by (nonlinear_arith)
        requires
            -bx <= x <= bx,
            -by <= y <= by,
    ;
}

/// The inputs of a ball query are within the supported range.
pub open spec fn ball_query_in_range(center: Vec2, radius: i64, ray: Ray) -> bool {
    &&& in_coord_range(center)
    &&& in_coord_range(ray.origin)
    &&& in_coord_range(ray.dir)
    &&& 0 <= radius <= COORD_LIMIT
}

/// The intersection reported for a hit at ray time `t`: the time itself and
/// the outward, unnormalized vector from the center to the hit point.
pub open spec fn ball_cast_at(center: Vec2, ray: Ray, t: int) -> RayIntersection {
    let nx = ray.origin.x + t * ray.dir.x - center.x;
    let ny = ray.origin.y + t * ray.dir.y - center.y;
    RayIntersection { toi: t as i64, normal: Vec2 { x: nx as i64, y: ny as i64 } }
}

/// The exact ray test of a ball, in exact integer arithmetic. A ray whose
/// origin lies inside a solid ball hits at time zero; against a hollow ball
/// it hits the boundary on the way out. A ray starting outside hits when
/// the discriminant of the ray-circle equation is non-negative and the
/// center lies forward of the origin; the time of impact is the smaller
/// root, rounded down. Out-of-range queries, degenerate (zero-direction)
/// rays and hits beyond [`TOI_LIMIT`] report no hit.
pub open spec fn ball_toi_spec(center: Vec2, radius: i64, ray: Ray, solid: bool) -> Option<
    RayIntersection,
> {
    if !ball_query_in_range(center, radius, ray) {
        Option::None
    } else {
        let cox = center.x - ray.origin.x;
        let coy = center.y - ray.origin.y;
        let dx = ray.dir.x as int;
        let dy = ray.dir.y as int;
        let a = dx * dx + dy * dy;
        let dist2 = cox * cox + coy * coy;
        let rr = radius * radius;
        if a == 0 {
            Option::None
        } else if solid && dist2 <= rr {
            Option::Some(
                RayIntersection { toi: 0, normal: Vec2 { x: (-dx) as i64, y: (-dy) as i64 } },
            )
        } else {
            let b = cox * dx + coy * dy;
            let c2 = dist2 - rr;
            let disc = b * b - a * c2;
            if dist2 <= rr {
                let t = (b + isqrt_spec(disc)) / a;
                if t <= TOI_LIMIT {
                    Option::Some(ball_cast_at(center, ray, t))
                } else {
                    Option::None
                }
            } else if b > 0 && disc >= 0 {
                let t = (b - isqrt_spec(disc)) / a;
                if t <= TOI_LIMIT {
                    Option::Some(ball_cast_at(center, ray, t))
                } else {
                    Option::None
                }
            } else {
                Option::None
            }
        }
    }
}

/// The exact containment test of a ball: the point is no further from the
/// center than the radius. Out-of-range queries report no containment.
pub open spec fn ball_contains_point_spec(center: Vec2, radius: i64, point: Vec2) -> bool {
    &&& in_coord_range(center)
    &&& in_coord_range(point)
    &&& 0 <= radius <= COORD_LIMIT
    &&& (point.x - center.x) * (point.x - center.x) + (point.y - center.y) * (point.y - center.y)
        <= radius * radius
}

/// A ball, described by its radius. As a support-mapped shape it is all
/// margin: its margin-free support point is its center and its margin is
/// its radius.
#[derive(Clone, Copy, PartialEq, Eq, Structural, Debug)]
pub struct Ball {
    radius: i64,
}

impl Ball {
    /// The radius stays within the supported coordinate range.
    #[verifier::type_invariant]
    pub closed spec fn wf(self) -> bool {
        0 <= self.radius <= COORD_LIMIT
    }

    /// The radius, as the model sees it.
    pub closed spec fn radius_spec(&self) -> i64 {
        self.radius
    }

    /// Builds a ball of the given radius.
    pub fn new(radius: i64) -> (b: Ball)
        requires
            0 <= radius <= COORD_LIMIT,
        ensures
            b.radius_spec() == radius,
    {
        Ball { radius }
    }

    /// The radius of this ball.
    pub fn radius(&self) -> (r: i64)
        ensures
            r == self.radius_spec(),
            0 <= r <= COORD_LIMIT,
    {
        proof {
            use_type_invariant(&*self);
        }
        self.radius
    }
}

/// Tests whether both coordinates are within the supported range.
fn coord_in_range(v: &Vec2) -> (r: bool)
    ensures
        r == in_coord_range(*v),
{
    -COORD_LIMIT <= v.x && v.x <= COORD_LIMIT && -COORD_LIMIT <= v.y && v.y <= COORD_LIMIT
}

impl HasMargin for Ball {
    open spec fn margin_spec(&self) -> i64 {
        self.radius_spec()
    }

    fn margin(&self) -> (m: i64) {
        self.radius()
    }
}

impl Implicit<Transform2> for Ball {
    /// The margin-free support point of a ball is its center, wherever the
    /// query direction points.
    open spec fn support_point_without_margin_spec(
        &self,
        transform: Transform2,
        dir: Vec2,
    ) -> Vec2 {
        transform.translation
    }

    fn support_point_without_margin(&self, transform: &Transform2, dir: &Vec2) -> (p: Vec2) {
        transform.translation
    }
}

impl PreferedSamplingDirections<Transform2> for Ball {
    /// A ball is isotropic: it prefers no sampling direction.
    open spec fn sampling_directions_spec(&self, transform: Transform2) -> Seq<Vec2> {
        Seq::empty()
    }

    fn sample(&self, transform: &Transform2) -> (dirs: Vec<Vec2>) {
        let dirs: Vec<Vec2> = Vec::new();
        proof {
            assert(dirs@ =~= Seq::<Vec2>::empty());
        }
        dirs
    }
}

impl RayCast<Transform2> for Ball {
    open spec fn toi_spec(&self, m: Transform2, ray: Ray, solid: bool) -> Option<RayIntersection> {
        ball_toi_spec(m.translation, self.radius_spec(), ray, solid)
    }

    fn toi_and_normal_with_ray(&self, m: &Transform2, ray: &Ray, solid: bool) -> (r: Option<
        RayIntersection,
    >) {
        proof {
            use_type_invariant(&*self);
        }
        let center = m.translation;
        if !(coord_in_range(&center) && coord_in_range(&ray.origin) && coord_in_range(&ray.dir)) {
            return Option::None;
        }
        let cox: i128 = center.x as i128 - ray.origin.x as i128;
        let coy: i128 = center.y as i128 - ray.origin.y as i128;
        let dx: i128 = ray.dir.x as i128;
        let dy: i128 = ray.dir.y as i128;
        proof {
            lemma_sq_bound(dx as int, 0x100000);
            lemma_sq_bound(dy as int, 0x100000);
            lemma_sq_bound(cox as int, 0x200000);
            lemma_sq_bound(coy as int, 0x200000);
            lemma_sq_bound(self.radius as int, 0x100000);
            lemma_prod_bound(cox as int, dx as int, 0x200000, 0x100000);
            lemma_prod_bound(coy as int, dy as int, 0x200000, 0x100000);
        }
        let a: i128 = dx * dx + dy * dy;
        let dist2: i128 = cox * cox + coy * coy;
        let rr: i128 = (self.radius as i128) * (self.radius as i128);
        if a == 0 {
            return Option::None;
        }
        if solid && dist2 <= rr {
            return Option::Some(
                RayIntersection { toi: 0, normal: Vec2 { x: -ray.dir.x, y: -ray.dir.y } },
            );
        }
        let b: i128 = cox * dx + coy * dy;
        let c2: i128 = dist2 - rr;
        proof {
            lemma_prod_bound(b as int, b as int, 0x4_0000_0000_0000, 0x4_0000_0000_0000);
            lemma_prod_bound(a as int, c2 as int, 0x200_0000_0000, 0x80_0000_0000_0000);
        }
        let disc: i128 = b * b - a * c2;
        if dist2 <= rr {
            // non-solid cast from inside the ball: the ray leaves through
            // the boundary
            proof {
                assert(a * c2 <= 0) by (nonlinear_arith)
                    requires
                        a >= 0,
                        c2 <= 0,
                ;
                assert((b as int) * (b as int) >= 0) by (nonlinear_arith);
                assert(disc >= 0);
                lemma_isqrt_exists(disc as int);
                let sq = isqrt_spec(disc as int);
                let babs = if b >= 0 {
                    b as int
                } else {
                    -(b as int)
                };
                assert(babs * babs == (b as int) * (b as int)) by (nonlinear_arith)
                    requires
                        babs == b as int || babs == -(b as int),
                ;
                lemma_isqrt_dominates(disc as int, babs);
                assert(b as int + sq >= 0);
            }
            let s: i128 = isqrt(disc as u128) as i128;
            let t128: u128 = ((b + s) as u128) / (a as u128);
            if t128 > (TOI_LIMIT as u128) {
                return Option::None;
            }
            let t: i128 = t128 as i128;
            proof {
                lemma_prod_bound(t as int, dx as int, 0x800000, 0x100000);
                lemma_prod_bound(t as int, dy as int, 0x800000, 0x100000);
            }
            let nx: i128 = ray.origin.x as i128 + t * dx - center.x as i128;
            let ny: i128 = ray.origin.y as i128 + t * dy - center.y as i128;
            return Option::Some(
                RayIntersection { toi: t as i64, normal: Vec2 { x: nx as i64, y: ny as i64 } },
            );
        }
        if b > 0 && disc >= 0 {
            // cast from outside: the smaller root of the ray-circle
            // equation
            proof {
                lemma_isqrt_exists(disc as int);
                let sq = isqrt_spec(disc as int);
                vstd::arithmetic::mul::lemma_mul_strictly_positive(a as int, c2 as int);
                assert(sq * sq <= disc as int && sq >= 0);
                assert(sq < b as int) by (nonlinear_arith)
                    requires
                        sq >= 0,
                        b as int > 0,
                        sq * sq <= disc as int,
                        disc as int == (b as int) * (b as int) - (a as int) * (c2 as int),
                        (a as int) * (c2 as int) > 0,
                ;
            }
            let s: i128 = isqrt(disc as u128) as i128;
            let t128: u128 = ((b - s) as u128) / (a as u128);
            if t128 > (TOI_LIMIT as u128) {
                return Option::None;
            }
            let t: i128 = t128 as i128;
            proof {
                lemma_prod_bound(t as int, dx as int, 0x800000, 0x100000);
                lemma_prod_bound(t as int, dy as int, 0x800000, 0x100000);
            }
            let nx: i128 = ray.origin.x as i128 + t * dx - center.x as i128;
            let ny: i128 = ray.origin.y as i128 + t * dy - center.y as i128;
            return Option::Some(
                RayIntersection { toi: t as i64, normal: Vec2 { x: nx as i64, y: ny as i64 } },
            );
        }
        Option::None
    }
}

impl PointQuery<Transform2> for Ball {
    open spec fn contains_point_spec(&self, m: Transform2, point: Vec2) -> bool {
        ball_contains_point_spec(m.translation, self.radius_spec(), point)
    }

    fn contains_point(&self, m: &Transform2, point: &Vec2) -> (r: bool) {
        proof {
            use_type_invariant(&*self);
        }
        let center = m.translation;
        if !(coord_in_range(&center) && coord_in_range(point)) {
            return false;
        }
        let px: i128 = point.x as i128 - center.x as i128;
        let py: i128 = point.y as i128 - center.y as i128;
        proof {
            lemma_sq_bound(px as int, 0x200000);
            lemma_sq_bound(py as int, 0x200000);
            lemma_sq_bound(self.radius as int, 0x100000);
        }
        px * px + py * py <= (self.radius as i128) * (self.radius as i128)
    }
}

} // verus!
