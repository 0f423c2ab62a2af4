//! The query pipeline: broad-phase-to-narrow-phase glue.
//!
//! Each query family eagerly fetches the broad phase's coarse candidate
//! handles once, then lazily resolves, filters and exactly tests them one by
//! one as the consumer pulls. A candidate is silently skipped when its
//! handle is stale, when its group filter is incompatible with the query's,
//! or when the exact test reports no interference.

use core::marker::PhantomData;
use vstd::prelude::*;

verus! {

use crate::geometry::{AABB, Ray, RayIntersection};
use crate::groups::CollisionGroups;
use crate::math::Vec2;
use crate::object::{BroadPhase, CollisionObjectRef, CollisionObjectSet, PointQuery, RayCast};
use crate::scan::{
    lemma_matches_of_none, lemma_matches_of_requery, lemma_matches_of_single,
    lemma_matches_of_split, matches_of,
};

/// What one ray-query candidate yields: the object and the exact ray
/// intersection, provided the handle resolves, the groups are compatible and
/// the solid ray test hits.
pub open spec fn ray_outcome<SH: RayCast<M>, M, CO: CollisionObjectRef<SH, M>, S: CollisionObjectSet<CO>>(
    objects: S,
    groups: CollisionGroups,
    ray: Ray,
    handle: u64,
) -> Option<(CO, RayIntersection)> {
    match objects.get_spec(handle) {
        Option::None => Option::None,
        Option::Some(co) => {
            if co.collision_groups_spec().can_interact_spec(groups) {
                match co.shape_spec().toi_spec(co.position_spec(), ray, true) {
                    Option::Some(inter) => Option::Some((co, inter)),
                    Option::None => Option::None,
                }
            } else {
                Option::None
            }
        },
    }
}

/// The outcomes of a whole ray-query candidate list, candidate by candidate.
pub open spec fn ray_outcomes<SH: RayCast<M>, M, CO: CollisionObjectRef<SH, M>, S: CollisionObjectSet<CO>>(
    objects: S,
    groups: CollisionGroups,
    ray: Ray,
    handles: Seq<u64>,
) -> Seq<Option<(CO, RayIntersection)>> {
    Seq::new(handles.len(), |i: int| ray_outcome(objects, groups, ray, handles[i]))
}

/// Lazy sequence of all the objects that intersect a specific ray, with the
/// matching intersection.
pub struct InterferencesWithRay<'a, SH, M, CO, S> {
    pub ray: Ray,
    pub groups: CollisionGroups,
    pub objects: &'a S,
    pub handles: Vec<u64>,
    pub cursor: usize,
    pub collaborators: PhantomData<(SH, M, CO)>,
}

/// Starts a ray interference query: fetches the coarse candidates for the
/// ray from the broad phase, and returns the lazy sequence of exact,
/// filtered matches, in candidate order.
pub fn interferences_with_ray<'a, SH: RayCast<M>, M, CO: CollisionObjectRef<SH, M>, S: CollisionObjectSet<CO>, B: BroadPhase>(
    objects: &'a S,
    broad_phase: &B,
    ray: &Ray,
    groups: &CollisionGroups,
) -> (it: InterferencesWithRay<'a, SH, M, CO, S>)
    ensures
        it.objects == objects,
        it.ray == *ray,
        it.groups == *groups,
        it.handles@ == broad_phase.ray_candidates_spec(*ray),
        it.cursor == 0,
{
    let mut handles: Vec<u64> = Vec::new();
    broad_phase.interferences_with_ray(ray, &mut handles);
    proof {
        assert(handles@ =~= broad_phase.ray_candidates_spec(*ray));
    }
    InterferencesWithRay {
        ray: *ray,
        groups: *groups,
        objects,
        handles,
        cursor: 0,
        collaborators: PhantomData,
    }
}

impl<'a, SH: RayCast<M>, M, CO: CollisionObjectRef<SH, M>, S: CollisionObjectSet<CO>> InterferencesWithRay<
    'a,
    SH,
    M,
    CO,
    S,
> {
    /// Produces the next match, or nothing once the candidates are
    /// exhausted. Candidates are scanned forward from the cursor; every
    /// candidate skipped on the way yields nothing, and the cursor never
    /// rewinds.
    #[verifier::loop_isolation(false)]
    pub fn next(&mut self) -> (r: Option<(&'a CO, RayIntersection)>)
        ensures
            final (self).ray == old(self).ray,
            final (self).groups == old(self).groups,
            final (self).objects == old(self).objects,
            final (self).handles == old(self).handles,
            old(self).cursor <= final (self).cursor,
            match r {
                Option::Some(p) => {
                    &&& old(self).cursor < final (self).cursor
                    &&& final (self).cursor <= old(self).handles@.len()
                    &&& ray_outcome(
                        *old(self).objects,
                        old(self).groups,
                        old(self).ray,
                        old(self).handles@[final (self).cursor - 1],
                    ) == Option::Some((*p.0, p.1))
                    &&& forall|i: int|
                        old(self).cursor <= i < final (self).cursor - 1 ==> ray_outcome(
                            *old(self).objects,
                            old(self).groups,
                            old(self).ray,
                            old(self).handles@[i],
                        ) is None
                },
                Option::None => {
                    &&& forall|i: int|
                        old(self).cursor <= i < old(self).handles@.len() ==> ray_outcome(
                            *old(self).objects,
                            old(self).groups,
                            old(self).ray,
                            old(self).handles@[i],
                        ) is None
                    &&& final (self).cursor as int == if old(self).cursor as int > old(
                        self,
                    ).handles@.len() {
                        old(self).cursor as int
                    } else {
                        old(self).handles@.len() as int
                    }
                },
            },
    {
        let objs = self.objects;
        let ghost orig = *self;
        while self.cursor < self.handles.len()
            invariant
                self.objects == orig.objects,
                self.ray == orig.ray,
                self.groups == orig.groups,
                self.handles == orig.handles,
                objs == orig.objects,
                orig.cursor <= self.cursor,
                orig.cursor as int <= orig.handles@.len() ==> self.cursor as int
                    <= orig.handles@.len(),
                orig.cursor as int > orig.handles@.len() ==> self.cursor == orig.cursor,
                forall|i: int|
                    orig.cursor <= i < self.cursor ==> ray_outcome(
                        *orig.objects,
                        orig.groups,
                        orig.ray,
                        orig.handles@[i],
                    ) is None,
            decreases self.handles.len() - self.cursor,
        {
            let h = self.handles[self.cursor];
            self.cursor = self.cursor + 1;
            match objs.get(h) {
                Option::None => {},
                Option::Some(co) => {
                    let g = co.collision_groups();
                    if g.can_interact_with_groups(&self.groups) {
                        let shape = co.shape();
                        let pos = co.position();
                        let inter = shape.toi_and_normal_with_ray(&pos, &self.ray, true);
                        match inter {
                            Option::Some(inter) => {
                                return Option::Some((co, inter));
                            },
                            Option::None => {},
                        }
                    }
                },
            }
        }
        Option::None
    }

    /// Produces all the remaining matches at once, in candidate order, and
    /// leaves the sequence exhausted. The result is exactly the match of
    /// every remaining candidate whose handle resolves, whose groups are
    /// compatible and whose exact ray test hits, each exactly once.
    #[verifier::loop_isolation(false)]
    pub fn exhaust(&mut self) -> (results: Vec<(&'a CO, RayIntersection)>)
        ensures
            final (self).ray == old(self).ray,
            final (self).groups == old(self).groups,
            final (self).objects == old(self).objects,
            final (self).handles == old(self).handles,
            old(self).cursor <= final (self).cursor,
            ({
                let model = matches_of(
                    ray_outcomes(
                        *old(self).objects,
                        old(self).groups,
                        old(self).ray,
                        old(self).handles@,
                    ),
                    old(self).cursor as int,
                    old(self).handles@.len() as int,
                );
                &&& results@.len() == model.len()
                &&& forall|i: int|
                    0 <= i < model.len() ==> ((*results@[i].0, results@[i].1) == model[i])
            }),
    {
        let objs = self.objects;
        let ghost orig = *self;
        let ghost outcomes = ray_outcomes(*orig.objects, orig.groups, orig.ray, orig.handles@);
        let mut results: Vec<(&'a CO, RayIntersection)> = Vec::new();
        while self.cursor < self.handles.len()
            invariant
                self.objects == orig.objects,
                self.ray == orig.ray,
                self.groups == orig.groups,
                self.handles == orig.handles,
                objs == orig.objects,
                orig.cursor <= self.cursor,
                outcomes == ray_outcomes(*orig.objects, orig.groups, orig.ray, orig.handles@),
                orig.cursor as int <= orig.handles@.len() ==> self.cursor as int
                    <= orig.handles@.len(),
                orig.cursor as int > orig.handles@.len() ==> self.cursor == orig.cursor,
                ({
                    let sofar = matches_of(outcomes, orig.cursor as int, self.cursor as int);
                    &&& results@.len() == sofar.len()
                    &&& forall|i: int|
                        0 <= i < sofar.len() ==> ((*results@[i].0, results@[i].1) == sofar[i])
                }),
            decreases self.handles.len() - self.cursor,
        {
            let ghost prev = self.cursor as int;
            let h = self.handles[self.cursor];
            self.cursor = self.cursor + 1;
            let mut produced: Option<(&'a CO, RayIntersection)> = Option::None;
            match objs.get(h) {
                Option::None => {},
                Option::Some(co) => {
                    let g = co.collision_groups();
                    if g.can_interact_with_groups(&self.groups) {
                        let shape = co.shape();
                        let pos = co.position();
                        let inter = shape.toi_and_normal_with_ray(&pos, &self.ray, true);
                        match inter {
                            Option::Some(inter) => {
                                produced = Option::Some((co, inter));
                            },
                            Option::None => {},
                        }
                    }
                },
            }
            proof {
                lemma_matches_of_split(outcomes, orig.cursor as int, prev, prev + 1);
            }
            match produced {
                Option::Some(p) => {
                    proof {
                        lemma_matches_of_single(outcomes, prev, (*p.0, p.1));
                    }
                    results.push(p);
                },
                Option::None => {
                    proof {
                        lemma_matches_of_none(outcomes, prev, prev + 1);
                        assert(matches_of(outcomes, orig.cursor as int, prev) + Seq::<(
                            CO,
                            RayIntersection,
                        )>::empty() =~= matches_of(outcomes, orig.cursor as int, prev));
                    }
                },
            }
        }
        results
    }
}

/// Law: only candidates pass, all passing candidates pass, and the matches
/// of a ray query are a function of the collaborators' state and the query
/// alone. Re-running the scan over a candidate list holding the same
/// handles, in whatever order and multiplicity the broad phase reports
/// them, yields the same collection of matches.
pub proof fn lemma_ray_requery_same_matches<SH: RayCast<M>, M, CO: CollisionObjectRef<SH, M>, S: CollisionObjectSet<CO>>(
    objects: S,
    groups: CollisionGroups,
    ray: Ray,
    h1: Seq<u64>,
    h2: Seq<u64>,
)
    requires
        forall|h: u64| h1.contains(h) <==> h2.contains(h),
    ensures
        forall|p: (CO, RayIntersection)|
            matches_of(ray_outcomes(objects, groups, ray, h1), 0, h1.len() as int).contains(p)
                <==> matches_of(ray_outcomes(objects, groups, ray, h2), 0, h2.len() as int).contains(
                p,
            ),
{
    let o1 = ray_outcomes(objects, groups, ray, h1);
    let o2 = ray_outcomes(objects, groups, ray, h2);
    assert(o1.len() == h1.len());
    assert(o2.len() == h2.len());
    lemma_matches_of_requery(o1, h1, o2, h2);
}

/// What one point-query candidate yields: the object, provided the handle
/// resolves, the groups are compatible and the shape contains the point.
pub open spec fn point_outcome<SH: PointQuery<M>, M, CO: CollisionObjectRef<SH, M>, S: CollisionObjectSet<CO>>(
    objects: S,
    groups: CollisionGroups,
    point: Vec2,
    handle: u64,
) -> Option<CO> {
    match objects.get_spec(handle) {
        Option::None => Option::None,
        Option::Some(co) => {
            if co.collision_groups_spec().can_interact_spec(groups)
                && co.shape_spec().contains_point_spec(co.position_spec(), point) {
                Option::Some(co)
            } else {
                Option::None
            }
        },
    }
}

/// The outcomes of a whole point-query candidate list.
pub open spec fn point_outcomes<SH: PointQuery<M>, M, CO: CollisionObjectRef<SH, M>, S: CollisionObjectSet<CO>>(
    objects: S,
    groups: CollisionGroups,
    point: Vec2,
    handles: Seq<u64>,
) -> Seq<Option<CO>> {
    Seq::new(handles.len(), |i: int| point_outcome(objects, groups, point, handles[i]))
}

/// Lazy sequence of all the objects that contain a specific point.
pub struct InterferencesWithPoint<'a, SH, M, CO, S> {
    pub point: Vec2,
    pub groups: CollisionGroups,
    pub objects: &'a S,
    pub handles: Vec<u64>,
    pub cursor: usize,
    pub collaborators: PhantomData<(SH, M, CO)>,
}

/// Starts a point interference query: fetches the coarse candidates for the
/// point from the broad phase, and returns the lazy sequence of exact,
/// filtered matches, in candidate order.
pub fn interferences_with_point<'a, SH: PointQuery<M>, M, CO: CollisionObjectRef<SH, M>, S: CollisionObjectSet<CO>, B: BroadPhase>(
    objects: &'a S,
    broad_phase: &B,
    point: &Vec2,
    groups: &CollisionGroups,
) -> (it: InterferencesWithPoint<'a, SH, M, CO, S>)
    ensures
        it.objects == objects,
        it.point == *point,
        it.groups == *groups,
        it.handles@ == broad_phase.point_candidates_spec(*point),
        it.cursor == 0,
{
    let mut handles: Vec<u64> = Vec::new();
    broad_phase.interferences_with_point(point, &mut handles);
    proof {
        assert(handles@ =~= broad_phase.point_candidates_spec(*point));
    }
    InterferencesWithPoint {
        point: *point,
        groups: *groups,
        objects,
        handles,
        cursor: 0,
        collaborators: PhantomData,
    }
}

impl<'a, SH: PointQuery<M>, M, CO: CollisionObjectRef<SH, M>, S: CollisionObjectSet<CO>> InterferencesWithPoint<
    'a,
    SH,
    M,
    CO,
    S,
> {
    /// Produces the next match, or nothing once the candidates are
    /// exhausted. Candidates are scanned forward from the cursor; every
    /// candidate skipped on the way yields nothing, and the cursor never
    /// rewinds.
    #[verifier::loop_isolation(false)]
    pub fn next(&mut self) -> (r: Option<&'a CO>)
        ensures
            final (self).point == old(self).point,
            final (self).groups == old(self).groups,
            final (self).objects == old(self).objects,
            final (self).handles == old(self).handles,
            old(self).cursor <= final (self).cursor,
            match r {
                Option::Some(co) => {
                    &&& old(self).cursor < final (self).cursor
                    &&& final (self).cursor <= old(self).handles@.len()
                    &&& point_outcome(
                        *old(self).objects,
                        old(self).groups,
                        old(self).point,
                        old(self).handles@[final (self).cursor - 1],
                    ) == Option::Some(*co)
                    &&& forall|i: int|
                        old(self).cursor <= i < final (self).cursor - 1 ==> point_outcome(
                            *old(self).objects,
                            old(self).groups,
                            old(self).point,
                            old(self).handles@[i],
                        ) is None
                },
                Option::None => {
                    &&& forall|i: int|
                        old(self).cursor <= i < old(self).handles@.len() ==> point_outcome(
                            *old(self).objects,
                            old(self).groups,
                            old(self).point,
                            old(self).handles@[i],
                        ) is None
                    &&& final (self).cursor as int == if old(self).cursor as int > old(
                        self,
                    ).handles@.len() {
                        old(self).cursor as int
                    } else {
                        old(self).handles@.len() as int
                    }
                },
            },
    {
        let objs = self.objects;
        let ghost orig = *self;
        while self.cursor < self.handles.len()
            invariant
                self.objects == orig.objects,
                self.point == orig.point,
                self.groups == orig.groups,
                self.handles == orig.handles,
                objs == orig.objects,
                orig.cursor <= self.cursor,
                orig.cursor as int <= orig.handles@.len() ==> self.cursor as int
                    <= orig.handles@.len(),
                orig.cursor as int > orig.handles@.len() ==> self.cursor == orig.cursor,
                forall|i: int|
                    orig.cursor <= i < self.cursor ==> point_outcome(
                        *orig.objects,
                        orig.groups,
                        orig.point,
                        orig.handles@[i],
                    ) is None,
            decreases self.handles.len() - self.cursor,
        {
            let h = self.handles[self.cursor];
            self.cursor = self.cursor + 1;
            match objs.get(h) {
                Option::None => {},
                Option::Some(co) => {
                    let g = co.collision_groups();
                    if g.can_interact_with_groups(&self.groups) {
                        let shape = co.shape();
                        let pos = co.position();
                        if shape.contains_point(&pos, &self.point) {
                            return Option::Some(co);
                        }
                    }
                },
            }
        }
        Option::None
    }

    /// Produces all the remaining matches at once, in candidate order, and
    /// leaves the sequence exhausted. The result is exactly every remaining
    /// candidate whose handle resolves, whose groups are compatible and
    /// whose shape contains the point, each exactly once.
    #[verifier::loop_isolation(false)]
    pub fn exhaust(&mut self) -> (results: Vec<&'a CO>)
        ensures
            final (self).point == old(self).point,
            final (self).groups == old(self).groups,
            final (self).objects == old(self).objects,
            final (self).handles == old(self).handles,
            old(self).cursor <= final (self).cursor,
            ({
                let model = matches_of(
                    point_outcomes(
                        *old(self).objects,
                        old(self).groups,
                        old(self).point,
                        old(self).handles@,
                    ),
                    old(self).cursor as int,
                    old(self).handles@.len() as int,
                );
                &&& results@.len() == model.len()
                &&& forall|i: int| 0 <= i < model.len() ==> *results@[i] == model[i]
            }),
    {
        let objs = self.objects;
        let ghost orig = *self;
        let ghost outcomes = point_outcomes(*orig.objects, orig.groups, orig.point, orig.handles@);
        let mut results: Vec<&'a CO> = Vec::new();
        while self.cursor < self.handles.len()
            invariant
                self.objects == orig.objects,
                self.point == orig.point,
                self.groups == orig.groups,
                self.handles == orig.handles,
                objs == orig.objects,
                orig.cursor <= self.cursor,
                outcomes == point_outcomes(*orig.objects, orig.groups, orig.point, orig.handles@),
                orig.cursor as int <= orig.handles@.len() ==> self.cursor as int
                    <= orig.handles@.len(),
                orig.cursor as int > orig.handles@.len() ==> self.cursor == orig.cursor,
                ({
                    let sofar = matches_of(outcomes, orig.cursor as int, self.cursor as int);
                    &&& results@.len() == sofar.len()
                    &&& forall|i: int| 0 <= i < sofar.len() ==> *results@[i] == sofar[i]
                }),
            decreases self.handles.len() - self.cursor,
        {
            let ghost prev = self.cursor as int;
            let h = self.handles[self.cursor];
            self.cursor = self.cursor + 1;
            let mut produced: Option<&'a CO> = Option::None;
            match objs.get(h) {
                Option::None => {},
                Option::Some(co) => {
                    let g = co.collision_groups();
                    if g.can_interact_with_groups(&self.groups) {
                        let shape = co.shape();
                        let pos = co.position();
                        if shape.contains_point(&pos, &self.point) {
                            produced = Option::Some(co);
                        }
                    }
                },
            }
            proof {
                lemma_matches_of_split(outcomes, orig.cursor as int, prev, prev + 1);
            }
            match produced {
                Option::Some(co) => {
                    proof {
                        lemma_matches_of_single(outcomes, prev, *co);
                    }
                    results.push(co);
                },
                Option::None => {
                    proof {
                        lemma_matches_of_none(outcomes, prev, prev + 1);
                        assert(matches_of(outcomes, orig.cursor as int, prev) + Seq::<
                            CO,
                        >::empty() =~= matches_of(outcomes, orig.cursor as int, prev));
                    }
                },
            }
        }
        results
    }
}

/// Law: the matches of a point query are a function of the collaborators'
/// state and the query alone; a candidate list holding the same handles, in
/// whatever order and multiplicity, yields the same collection of matches.
pub proof fn lemma_point_requery_same_matches<SH: PointQuery<M>, M, CO: CollisionObjectRef<SH, M>, S: CollisionObjectSet<CO>>(
    objects: S,
    groups: CollisionGroups,
    point: Vec2,
    h1: Seq<u64>,
    h2: Seq<u64>,
)
    requires
        forall|h: u64| h1.contains(h) <==> h2.contains(h),
    ensures
        forall|co: CO|
            matches_of(point_outcomes(objects, groups, point, h1), 0, h1.len() as int).contains(co)
                <==> matches_of(
                point_outcomes(objects, groups, point, h2),
                0,
                h2.len() as int,
            ).contains(co),
{
    let o1 = point_outcomes(objects, groups, point, h1);
    let o2 = point_outcomes(objects, groups, point, h2);
    assert(o1.len() == h1.len());
    assert(o2.len() == h2.len());
    lemma_matches_of_requery(o1, h1, o2, h2);
}

/// What one bounding-volume-query candidate yields: the object, provided
/// the handle resolves and the groups are compatible. The broad phase's
/// bounding-volume overlap is authoritative for this family: no further
/// exact test is applied.
pub open spec fn aabb_outcome<SH, M, CO: CollisionObjectRef<SH, M>, S: CollisionObjectSet<CO>>(
    objects: S,
    groups: CollisionGroups,
    handle: u64,
) -> Option<CO> {
    match objects.get_spec(handle) {
        Option::None => Option::None,
        Option::Some(co) => {
            if co.collision_groups_spec().can_interact_spec(groups) {
                Option::Some(co)
            } else {
                Option::None
            }
        },
    }
}

/// The outcomes of a whole bounding-volume-query candidate list.
pub open spec fn aabb_outcomes<SH, M, CO: CollisionObjectRef<SH, M>, S: CollisionObjectSet<CO>>(
    objects: S,
    groups: CollisionGroups,
    handles: Seq<u64>,
) -> Seq<Option<CO>> {
    Seq::new(handles.len(), |i: int| aabb_outcome::<SH, M, CO, S>(objects, groups, handles[i]))
}

/// Lazy sequence of all the objects whose bounding volume overlaps a
/// specific AABB.
pub struct InterferencesWithAABB<'a, SH, M, CO, S> {
    pub groups: CollisionGroups,
    pub objects: &'a S,
    pub handles: Vec<u64>,
    pub cursor: usize,
    pub collaborators: PhantomData<(SH, M, CO)>,
}

/// Starts a bounding-volume interference query: fetches the coarse
/// candidates for the AABB from the broad phase, and returns the lazy
/// sequence of group-filtered candidates, in candidate order.
pub fn interferences_with_aabb<'a, SH, M, CO: CollisionObjectRef<SH, M>, S: CollisionObjectSet<CO>, B: BroadPhase>(
    objects: &'a S,
    broad_phase: &B,
    aabb: &AABB,
    groups: &CollisionGroups,
) -> (it: InterferencesWithAABB<'a, SH, M, CO, S>)
    ensures
        it.objects == objects,
        it.groups == *groups,
        it.handles@ == broad_phase.aabb_candidates_spec(*aabb),
        it.cursor == 0,
{
    let mut handles: Vec<u64> = Vec::new();
    broad_phase.interferences_with_bounding_volume(aabb, &mut handles);
    proof {
        assert(handles@ =~= broad_phase.aabb_candidates_spec(*aabb));
    }
    InterferencesWithAABB { groups: *groups, objects, handles, cursor: 0, collaborators: PhantomData }
}

impl<'a, SH, M, CO: CollisionObjectRef<SH, M>, S: CollisionObjectSet<CO>> InterferencesWithAABB<
    'a,
    SH,
    M,
    CO,
    S,
> {
    /// Produces the next match, or nothing once the candidates are
    /// exhausted. Candidates are scanned forward from the cursor; every
    /// candidate skipped on the way yields nothing, and the cursor never
    /// rewinds.
    #[verifier::loop_isolation(false)]
    pub fn next(&mut self) -> (r: Option<&'a CO>)
        ensures
            final (self).groups == old(self).groups,
            final (self).objects == old(self).objects,
            final (self).handles == old(self).handles,
            old(self).cursor <= final (self).cursor,
            match r {
                Option::Some(co) => {
                    &&& old(self).cursor < final (self).cursor
                    &&& final (self).cursor <= old(self).handles@.len()
                    &&& aabb_outcome::<SH, M, CO, S>(
                        *old(self).objects,
                        old(self).groups,
                        old(self).handles@[final (self).cursor - 1],
                    ) == Option::Some(*co)
                    &&& forall|i: int|
                        old(self).cursor <= i < final (self).cursor - 1 ==> aabb_outcome::<
                            SH,
                            M,
                            CO,
                            S,
                        >(*old(self).objects, old(self).groups, old(self).handles@[i]) is None
                },
                Option::None => {
                    &&& forall|i: int|
                        old(self).cursor <= i < old(self).handles@.len() ==> aabb_outcome::<
                            SH,
                            M,
                            CO,
                            S,
                        >(*old(self).objects, old(self).groups, old(self).handles@[i]) is None
                    &&& final (self).cursor as int == if old(self).cursor as int > old(
                        self,
                    ).handles@.len() {
                        old(self).cursor as int
                    } else {
                        old(self).handles@.len() as int
                    }
                },
            },
    {
        let objs = self.objects;
        let ghost orig = *self;
        while self.cursor < self.handles.len()
            invariant
                self.objects == orig.objects,
                self.groups == orig.groups,
                self.handles == orig.handles,
                objs == orig.objects,
                orig.cursor <= self.cursor,
                orig.cursor as int <= orig.handles@.len() ==> self.cursor as int
                    <= orig.handles@.len(),
                orig.cursor as int > orig.handles@.len() ==> self.cursor == orig.cursor,
                forall|i: int|
                    orig.cursor <= i < self.cursor ==> aabb_outcome::<SH, M, CO, S>(
                        *orig.objects,
                        orig.groups,
                        orig.handles@[i],
                    ) is None,
            decreases self.handles.len() - self.cursor,
        {
            let h = self.handles[self.cursor];
            self.cursor = self.cursor + 1;
            match objs.get(h) {
                Option::None => {},
                Option::Some(co) => {
                    let g = co.collision_groups();
                    if g.can_interact_with_groups(&self.groups) {
                        return Option::Some(co);
                    }
                },
            }
        }
        Option::None
    }

    /// Produces all the remaining matches at once, in candidate order, and
    /// leaves the sequence exhausted. The result is exactly every remaining
    /// candidate whose handle resolves and whose groups are compatible, each
    /// exactly once.
    #[verifier::loop_isolation(false)]
    pub fn exhaust(&mut self) -> (results: Vec<&'a CO>)
        ensures
            final (self).groups == old(self).groups,
            final (self).objects == old(self).objects,
            final (self).handles == old(self).handles,
            old(self).cursor <= final (self).cursor,
            ({
                let model = matches_of(
                    aabb_outcomes::<SH, M, CO, S>(
                        *old(self).objects,
                        old(self).groups,
                        old(self).handles@,
                    ),
                    old(self).cursor as int,
                    old(self).handles@.len() as int,
                );
                &&& results@.len() == model.len()
                &&& forall|i: int| 0 <= i < model.len() ==> *results@[i] == model[i]
            }),
    {
        let objs = self.objects;
        let ghost orig = *self;
        let ghost outcomes = aabb_outcomes::<SH, M, CO, S>(*orig.objects, orig.groups, orig.handles@);
        let mut results: Vec<&'a CO> = Vec::new();
        while self.cursor < self.handles.len()
            invariant
                self.objects == orig.objects,
                self.groups == orig.groups,
                self.handles == orig.handles,
                objs == orig.objects,
                orig.cursor <= self.cursor,
                outcomes == aabb_outcomes::<SH, M, CO, S>(*orig.objects, orig.groups, orig.handles@),
                orig.cursor as int <= orig.handles@.len() ==> self.cursor as int
                    <= orig.handles@.len(),
                orig.cursor as int > orig.handles@.len() ==> self.cursor == orig.cursor,
                ({
                    let sofar = matches_of(outcomes, orig.cursor as int, self.cursor as int);
                    &&& results@.len() == sofar.len()
                    &&& forall|i: int| 0 <= i < sofar.len() ==> *results@[i] == sofar[i]
                }),
            decreases self.handles.len() - self.cursor,
        {
            let ghost prev = self.cursor as int;
            let h = self.handles[self.cursor];
            self.cursor = self.cursor + 1;
            let mut produced: Option<&'a CO> = Option::None;
            match objs.get(h) {
                Option::None => {},
                Option::Some(co) => {
                    let g = co.collision_groups();
                    if g.can_interact_with_groups(&self.groups) {
                        produced = Option::Some(co);
                    }
                },
            }
            proof {
                lemma_matches_of_split(outcomes, orig.cursor as int, prev, prev + 1);
            }
            match produced {
                Option::Some(co) => {
                    proof {
                        lemma_matches_of_single(outcomes, prev, *co);
                    }
                    results.push(co);
                },
                Option::None => {
                    proof {
                        lemma_matches_of_none(outcomes, prev, prev + 1);
                        assert(matches_of(outcomes, orig.cursor as int, prev) + Seq::<
                            CO,
                        >::empty() =~= matches_of(outcomes, orig.cursor as int, prev));
                    }
                },
            }
        }
        results
    }
}

/// Law: the matches of a bounding-volume query are a function of the
/// collaborators' state and the query alone; a candidate list holding the
/// same handles, in whatever order and multiplicity, yields the same
/// collection of matches.
pub proof fn lemma_aabb_requery_same_matches<SH, M, CO: CollisionObjectRef<SH, M>, S: CollisionObjectSet<CO>>(
    objects: S,
    groups: CollisionGroups,
    h1: Seq<u64>,
    h2: Seq<u64>,
)
    requires
        forall|h: u64| h1.contains(h) <==> h2.contains(h),
    ensures
        forall|co: CO|
            matches_of(aabb_outcomes::<SH, M, CO, S>(objects, groups, h1), 0, h1.len() as int)
                .contains(co) <==> matches_of(
                aabb_outcomes::<SH, M, CO, S>(objects, groups, h2),
                0,
                h2.len() as int,
            ).contains(co),
{
    let o1 = aabb_outcomes::<SH, M, CO, S>(objects, groups, h1);
    let o2 = aabb_outcomes::<SH, M, CO, S>(objects, groups, h2);
    assert(o1.len() == h1.len());
    assert(o2.len() == h2.len());
    lemma_matches_of_requery(o1, h1, o2, h2);
}

} // verus!
