use ncollide::ball::Ball;
use ncollide::geometry::{Ray, Transform2, AABB};
use ncollide::groups::CollisionGroups;
use ncollide::math::Vec2;
use ncollide::object::{PointQuery, RayCast};
use ncollide::pipeline::{interferences_with_aabb, interferences_with_point, interferences_with_ray};
use ncollide::world::{BruteForceBroadPhase, SimpleCollisionObject, SimpleObjectSet};

fn permissive() -> CollisionGroups {
    CollisionGroups {
        membership: 1,
        whitelist: u32::MAX,
        blacklist: 0,
    }
}

fn ball_at(x: i64, y: i64, radius: i64, groups: CollisionGroups) -> SimpleCollisionObject<Ball> {
    SimpleCollisionObject {
        shape: Ball::new(radius),
        position: Transform2 {
            translation: Vec2 { x, y },
        },
        groups,
    }
}

#[test]
fn ray_toi_exact_from_outside() {
    let ball = Ball::new(100);
    let m = Transform2 {
        translation: Vec2 { x: 0, y: 0 },
    };
    let ray = Ray {
        origin: Vec2 { x: -300, y: 0 },
        dir: Vec2 { x: 1, y: 0 },
    };
    let inter = ball.toi_and_normal_with_ray(&m, &ray, true).unwrap();
    assert_eq!(inter.toi, 200);
    assert_eq!(inter.normal, Vec2 { x: -100, y: 0 });
}

#[test]
fn ray_toi_zero_from_inside_solid() {
    let ball = Ball::new(100);
    let m = Transform2 {
        translation: Vec2 { x: 0, y: 0 },
    };
    let ray = Ray {
        origin: Vec2 { x: 10, y: 0 },
        dir: Vec2 { x: 1, y: 0 },
    };
    let inter = ball.toi_and_normal_with_ray(&m, &ray, true).unwrap();
    assert_eq!(inter.toi, 0);
}

#[test]
fn ray_misses_ball_behind_origin() {
    let ball = Ball::new(100);
    let m = Transform2 {
        translation: Vec2 { x: 0, y: 0 },
    };
    let ray = Ray {
        origin: Vec2 { x: 300, y: 0 },
        dir: Vec2 { x: 1, y: 0 },
    };
    assert!(ball.toi_and_normal_with_ray(&m, &ray, true).is_none());
}

#[test]
fn ball_contains_point_exactly() {
    let ball = Ball::new(10);
    let m = Transform2 {
        translation: Vec2 { x: 5, y: 5 },
    };
    assert!(ball.contains_point(&m, &Vec2 { x: 12, y: 12 }));
    assert!(!ball.contains_point(&m, &Vec2 { x: 13, y: 13 }));
}

#[test]
fn ray_query_yields_one_hit_with_positive_time() {
    let objects = SimpleObjectSet {
        slots: vec![Some(ball_at(0, 0, 100, permissive()))],
    };
    let broad_phase = BruteForceBroadPhase { handles: vec![0] };
    let ray = Ray {
        origin: Vec2 { x: -300, y: 0 },
        dir: Vec2 { x: 1, y: 0 },
    };
    let mut it = interferences_with_ray(&objects, &broad_phase, &ray, &permissive());
    let (co, inter) = it.next().expect("one interference expected");
    assert_eq!(*co, ball_at(0, 0, 100, permissive()));
    assert!(inter.toi > 0);
    assert_eq!(inter.toi, 200);
    assert!(it.next().is_none());
}

#[test]
fn ray_query_respects_group_filter() {
    // The object only whitelists group 0; the query filter is only a member
    // of group 1, so the pair is filtered out even though the ray hits.
    let object_groups = CollisionGroups {
        membership: 1,
        whitelist: 1,
        blacklist: 0,
    };
    let query_groups = CollisionGroups {
        membership: 2,
        whitelist: u32::MAX,
        blacklist: 0,
    };
    let objects = SimpleObjectSet {
        slots: vec![Some(ball_at(0, 0, 100, object_groups))],
    };
    let broad_phase = BruteForceBroadPhase { handles: vec![0] };
    let ray = Ray {
        origin: Vec2 { x: -300, y: 0 },
        dir: Vec2 { x: 1, y: 0 },
    };
    let mut it = interferences_with_ray(&objects, &broad_phase, &ray, &query_groups);
    assert!(it.next().is_none());
}

#[test]
fn ray_query_skips_stale_handles() {
    let objects = SimpleObjectSet {
        slots: vec![Some(ball_at(0, 0, 100, permissive())), None],
    };
    // One live handle, one stale handle, one handle out of range.
    let broad_phase = BruteForceBroadPhase {
        handles: vec![1, 7, 0],
    };
    let ray = Ray {
        origin: Vec2 { x: -300, y: 0 },
        dir: Vec2 { x: 1, y: 0 },
    };
    let mut it = interferences_with_ray(&objects, &broad_phase, &ray, &permissive());
    let results = it.exhaust();
    assert_eq!(results.len(), 1);
    assert_eq!(results[0].1.toi, 200);
}

#[test]
fn ray_query_yields_matches_in_candidate_order() {
    let objects = SimpleObjectSet {
        slots: vec![
            Some(ball_at(0, 0, 100, permissive())),
            Some(ball_at(1000, 0, 100, permissive())),
        ],
    };
    let broad_phase = BruteForceBroadPhase {
        handles: vec![1, 0],
    };
    let ray = Ray {
        origin: Vec2 { x: -300, y: 0 },
        dir: Vec2 { x: 1, y: 0 },
    };
    let mut it = interferences_with_ray(&objects, &broad_phase, &ray, &permissive());
    let results = it.exhaust();
    assert_eq!(results.len(), 2);
    // Candidate order is preserved: handle 1 (the far ball) came first.
    // Its near side is at x = 900, so the hit time is 900 - (-300) = 1200.
    assert_eq!(results[0].1.toi, 1200);
    assert_eq!(results[1].1.toi, 200);
    // The sequence is exhausted and does not restart.
    assert!(it.next().is_none());
}

#[test]
fn point_query_yields_containing_objects_only() {
    let objects = SimpleObjectSet {
        slots: vec![
            Some(ball_at(0, 0, 10, permissive())),
            Some(ball_at(100, 0, 10, permissive())),
        ],
    };
    let broad_phase = BruteForceBroadPhase {
        handles: vec![0, 1],
    };
    let point = Vec2 { x: 5, y: 0 };
    let mut it = interferences_with_point(&objects, &broad_phase, &point, &permissive());
    let co = it.next().expect("the first ball contains the point");
    assert_eq!(*co, ball_at(0, 0, 10, permissive()));
    assert!(it.next().is_none());
}

#[test]
fn point_query_outside_every_shape_yields_nothing() {
    let objects = SimpleObjectSet {
        slots: vec![
            Some(ball_at(0, 0, 10, permissive())),
            Some(ball_at(100, 0, 10, permissive())),
        ],
    };
    let broad_phase = BruteForceBroadPhase {
        handles: vec![0, 1],
    };
    let point = Vec2 { x: 50, y: 50 };
    let mut it = interferences_with_point(&objects, &broad_phase, &point, &permissive());
    assert!(it.next().is_none());
}

#[test]
fn aabb_query_applies_group_filter_only() {
    let excluded = CollisionGroups {
        membership: 2,
        whitelist: 2,
        blacklist: 0,
    };
    let objects = SimpleObjectSet {
        slots: vec![
            Some(ball_at(0, 0, 10, permissive())),
            Some(ball_at(100, 0, 10, excluded)),
        ],
    };
    let broad_phase = BruteForceBroadPhase {
        handles: vec![0, 1],
    };
    let aabb = AABB {
        mins: Vec2 { x: -1, y: -1 },
        maxs: Vec2 { x: 1, y: 1 },
    };
    let mut it = interferences_with_aabb(&objects, &broad_phase, &aabb, &permissive());
    let results = it.exhaust();
    // The broad phase's overlap answer is authoritative: no exact test
    // beyond the group filter.
    assert_eq!(results.len(), 1);
    assert_eq!(*results[0], ball_at(0, 0, 10, permissive()));
}

#[test]
fn empty_candidate_list_yields_empty_sequence() {
    let objects: SimpleObjectSet<SimpleCollisionObject<Ball>> =
        SimpleObjectSet { slots: vec![] };
    let broad_phase = BruteForceBroadPhase { handles: vec![] };
    let ray = Ray {
        origin: Vec2 { x: -300, y: 0 },
        dir: Vec2 { x: 1, y: 0 },
    };
    let mut it = interferences_with_ray(&objects, &broad_phase, &ray, &permissive());
    assert!(it.next().is_none());
}

#[test]
fn requery_with_same_state_yields_same_results() {
    let objects = SimpleObjectSet {
        slots: vec![
            Some(ball_at(0, 0, 100, permissive())),
            Some(ball_at(1000, 0, 100, permissive())),
        ],
    };
    let broad_phase = BruteForceBroadPhase {
        handles: vec![0, 1],
    };
    let ray = Ray {
        origin: Vec2 { x: -300, y: 0 },
        dir: Vec2 { x: 1, y: 0 },
    };
    let first = interferences_with_ray(&objects, &broad_phase, &ray, &permissive()).exhaust();
    let second = interferences_with_ray(&objects, &broad_phase, &ray, &permissive()).exhaust();
    assert_eq!(first.len(), second.len());
    for (a, b) in first.iter().zip(second.iter()) {
        assert_eq!(a.0, b.0);
        assert_eq!(a.1, b.1);
    }
}

#[test]
fn group_interaction_is_symmetric_and_blacklist_wins() {
    let a = CollisionGroups {
        membership: 1,
        whitelist: 2,
        blacklist: 0,
    };
    let b = CollisionGroups {
        membership: 2,
        whitelist: 1,
        blacklist: 0,
    };
    assert!(a.can_interact_with_groups(&b));
    assert!(b.can_interact_with_groups(&a));
    let c = CollisionGroups {
        membership: 2,
        whitelist: 1,
        blacklist: 1,
    };
    assert!(!a.can_interact_with_groups(&c));
    assert!(!c.can_interact_with_groups(&a));
    let d = CollisionGroups::new(4, 4, 0);
    assert!(!a.can_interact_with_groups(&d));
}

#[test]
fn point_query_exhaust_collects_all_containing_objects() {
    let objects = SimpleObjectSet {
        slots: vec![
            Some(ball_at(0, 0, 10, permissive())),
            Some(ball_at(3, 0, 10, permissive())),
            Some(ball_at(100, 0, 10, permissive())),
        ],
    };
    let broad_phase = BruteForceBroadPhase {
        handles: vec![0, 1, 2],
    };
    let point = Vec2 { x: 5, y: 0 };
    let results =
        interferences_with_point(&objects, &broad_phase, &point, &permissive()).exhaust();
    assert_eq!(results.len(), 2);
    assert_eq!(*results[0], ball_at(0, 0, 10, permissive()));
    assert_eq!(*results[1], ball_at(3, 0, 10, permissive()));
}
