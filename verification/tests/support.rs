use ncollide::ball::Ball;
use ncollide::geometry::Transform2;
use ncollide::implicit::{HasMargin, Implicit, PreferedSamplingDirections};
use ncollide::math::{abs64, isqrt, margin_offset, Vec2};

#[test]
fn isqrt_exact_values() {
    assert_eq!(isqrt(0), 0);
    assert_eq!(isqrt(1), 1);
    assert_eq!(isqrt(2), 1);
    assert_eq!(isqrt(3), 1);
    assert_eq!(isqrt(4), 2);
    assert_eq!(isqrt(15), 3);
    assert_eq!(isqrt(16), 4);
    assert_eq!(isqrt(99), 9);
    assert_eq!(isqrt(100), 10);
    assert_eq!(isqrt(u128::MAX), u64::MAX);
}

#[test]
fn abs64_exact_values() {
    assert_eq!(abs64(0), 0);
    assert_eq!(abs64(17), 17);
    assert_eq!(abs64(-17), 17);
    assert_eq!(abs64(i64::MIN), 1u64 << 63);
}

#[test]
fn margin_offset_scales_the_unit_direction() {
    // |(3, 4)| = 5, so the offset is the direction itself scaled by m / 5.
    let d = Vec2 { x: 3, y: 4 };
    assert_eq!(margin_offset(&d, 10), Vec2 { x: 6, y: 8 });
    assert_eq!(margin_offset(&d, 0), Vec2 { x: 0, y: 0 });
    let d_neg = Vec2 { x: -3, y: 4 };
    assert_eq!(margin_offset(&d_neg, 10), Vec2 { x: -6, y: 8 });
}

#[test]
fn support_point_is_margin_free_point_plus_offset() {
    let ball = Ball::new(5);
    let t = Transform2 { translation: Vec2 { x: 10, y: 20 } };
    let d = Vec2 { x: 3, y: 4 };
    let wo = ball.support_point_without_margin(&t, &d);
    assert_eq!(wo, Vec2 { x: 10, y: 20 });
    let p = ball.support_point(&t, &d);
    assert_eq!(p, Vec2 { x: 13, y: 24 });
}

#[test]
fn support_point_with_zero_margin_equals_margin_free_point() {
    let ball = Ball::new(0);
    let t = Transform2 { translation: Vec2 { x: -7, y: 3 } };
    let d = Vec2 { x: 0, y: 9 };
    assert_eq!(
        ball.support_point(&t, &d),
        ball.support_point_without_margin(&t, &d)
    );
}

#[test]
fn borrowed_shape_delegates_margin_and_support_point() {
    let ball = Ball::new(5);
    let borrowed = &ball;
    assert_eq!(HasMargin::margin(&borrowed), ball.margin());
    let t = Transform2 { translation: Vec2 { x: 10, y: 20 } };
    let d = Vec2 { x: 3, y: 4 };
    assert_eq!(
        Implicit::support_point(&borrowed, &t, &d),
        ball.support_point(&t, &d)
    );
    assert_eq!(
        Implicit::support_point_without_margin(&borrowed, &t, &d),
        ball.support_point_without_margin(&t, &d)
    );
}

#[test]
fn ball_reports_its_radius_as_margin() {
    let ball = Ball::new(42);
    assert_eq!(ball.radius(), 42);
    assert_eq!(ball.margin(), 42);
}

#[test]
fn ball_has_no_preferred_sampling_directions() {
    let ball = Ball::new(3);
    let t = Transform2 { translation: Vec2 { x: 0, y: 0 } };
    let dirs = ball.sample(&t);
    assert!(dirs.is_empty());
}

#[test]
fn margin_offset_rounds_each_coordinate_up_to_the_margin_at_coarse_resolution() {
    // |(1, 1)| rounds down to 1, so each coordinate receives the full
    // margin.
    let d = Vec2 { x: 1, y: 1 };
    assert_eq!(margin_offset(&d, 10), Vec2 { x: 10, y: 10 });
    // At finer resolution the same direction is normalized as expected.
    let d_fine = Vec2 { x: 1000, y: 1000 };
    // |(1000, 1000)| rounds down to 1414.
    assert_eq!(margin_offset(&d_fine, 1414), Vec2 { x: 1000, y: 1000 });
}
