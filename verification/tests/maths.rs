use hivesim::maths::{
    angle_lerp, atan2, cos, lerp, random_angle, random_ring_point, ring_point, sin, HALF_PI, PI,
    TAU,
};
use hivesim::vector::{
    closest, floor_div, floor_div_wide, isqrt, magnitude, portion, saturate, Vec2, UNIT,
};

#[test]
fn saturate_cuts_at_both_ends() {
    assert_eq!(saturate(5), 5);
    assert_eq!(saturate(-5), -5);
    assert_eq!(saturate(i64::MAX), i32::MAX);
    assert_eq!(saturate(i64::MIN), i32::MIN);
    assert_eq!(saturate(2147483648), i32::MAX);
    assert_eq!(saturate(-2147483649), i32::MIN);
}

#[test]
fn magnitude_of_the_smallest_number() {
    assert_eq!(magnitude(0), 0);
    assert_eq!(magnitude(-7), 7);
    assert_eq!(magnitude(7), 7);
    assert_eq!(magnitude(i64::MIN), 9223372036854775808u64);
}

#[test]
fn isqrt_rounds_down() {
    assert_eq!(isqrt(0), 0);
    assert_eq!(isqrt(1), 1);
    assert_eq!(isqrt(15), 3);
    assert_eq!(isqrt(16), 4);
    assert_eq!(isqrt(17), 4);
    assert_eq!(isqrt(25_000_000), 5000);
    assert_eq!(isqrt(u128::MAX), u64::MAX);
}

#[test]
fn floor_div_rounds_towards_minus_infinity() {
    assert_eq!(floor_div(7, 2), 3);
    assert_eq!(floor_div(-7, 2), -4);
    assert_eq!(floor_div(-8, 2), -4);
    assert_eq!(floor_div(-1, 55000), -1);
    assert_eq!(floor_div(0, 3), 0);
    assert_eq!(floor_div(i64::MIN, 1), i64::MIN);
    assert_eq!(floor_div_wide(-7, 2), -4);
    assert_eq!(floor_div_wide(7, 2), 3);
    assert_eq!(floor_div_wide(-6, 3), -2);
}

#[test]
fn portion_is_a_rounded_down_share() {
    assert_eq!(portion(1000, 4, 5), 800);
    assert_eq!(portion(-1, 1, 2), -1);
    assert_eq!(portion(3, 15, 1), 45);
    assert_eq!(portion(i32::MAX, 2, 1), i32::MAX);
    assert_eq!(portion(i32::MIN, 2, 1), i32::MIN);
}

#[test]
fn vector_sum_and_difference_saturate() {
    let a = Vec2::new(3, -4);
    let b = Vec2::new(10, 20);
    assert_eq!(a.add(b), Vec2::new(13, 16));
    assert_eq!(a.sub(b), Vec2::new(-7, -24));
    assert_eq!(Vec2::new(i32::MAX, 0).add(Vec2::new(1, 0)), Vec2::new(i32::MAX, 0));
    assert_eq!(Vec2::new(i32::MIN, 0).sub(Vec2::new(1, 0)), Vec2::new(i32::MIN, 0));
    assert_eq!(Vec2::zero(), Vec2::new(0, 0));
}

#[test]
fn distances_are_compared_by_their_squares() {
    let a = Vec2::new(0, 0);
    let b = Vec2::new(3000, 4000);
    assert_eq!(a.distance_squared(b), 25_000_000);
    assert_eq!(b.length(), 5000);
    assert!(a.within(b, 5001));
    assert!(!a.within(b, 5000));
    assert!(a.beyond(b, 4999));
    assert!(!a.beyond(b, 5000));
    assert!(!a.within(a, 0));
    assert!(a.beyond(a, -1));
    let far = Vec2::new(i32::MAX, i32::MAX);
    let near = Vec2::new(i32::MIN, i32::MIN);
    assert_eq!(far.distance_squared(near), 2 * (4294967295u128 * 4294967295u128));
}

#[test]
fn resize_keeps_the_direction() {
    assert_eq!(Vec2::new(3000, 4000).resize(UNIT), Vec2::new(600, 800));
    assert_eq!(Vec2::new(-3000, 4000).resize(UNIT), Vec2::new(-600, 800));
    assert_eq!(Vec2::new(0, -7).resize(1500), Vec2::new(0, -1500));
    assert_eq!(Vec2::new(0, 0).resize(1500), Vec2::new(0, 0));
    assert_eq!(Vec2::new(1, 0).resize(-1000), Vec2::new(-1000, 0));
}

#[test]
fn scale_rounds_down() {
    assert_eq!(Vec2::new(1000, -1000).scale(45 * 100, 1000), Vec2::new(4500, -4500));
    assert_eq!(Vec2::new(1, -1).scale(1, 2), Vec2::new(0, -1));
}

#[test]
fn closest_is_the_first_of_the_nearest() {
    let p = Vec2::new(0, 0);
    assert_eq!(closest(&vec![], p), None);
    let points = vec![Vec2::new(5, 0), Vec2::new(0, 3), Vec2::new(3, 0), Vec2::new(0, -3)];
    assert_eq!(closest(&points, p), Some(1));
    assert_eq!(closest(&points, Vec2::new(5, 1)), Some(0));
}

#[test]
fn sine_and_cosine_at_the_quarter_turns() {
    assert_eq!(sin(0), 0);
    assert_eq!(sin(HALF_PI), 1000);
    assert_eq!(sin(PI), 0);
    assert_eq!(sin(-HALF_PI), -1000);
    assert_eq!(sin(PI + HALF_PI), -1000);
    assert_eq!(sin(TAU), 0);
    assert_eq!(sin(TAU + HALF_PI), 1000);
    assert_eq!(cos(0), 1000);
    assert_eq!(cos(HALF_PI), 0);
    assert_eq!(cos(PI), -1000);
    assert_eq!(cos(-HALF_PI), 0);
}

#[test]
fn sine_of_thirty_degrees_is_a_half() {
    assert_eq!(sin(524), 500);
    assert_eq!(cos(1047), 500);
}

#[test]
fn sine_stays_within_a_thousand() {
    let mut a: i32 = -20000;
    while a < 20000 {
        let s = sin(a);
        let c = cos(a);
        assert!(-1000 <= s && s <= 1000);
        assert!(-1000 <= c && c <= 1000);
        a += 7;
    }
    assert!(sin(i32::MAX).abs() <= 1000);
    assert!(sin(i32::MIN).abs() <= 1000);
}

#[test]
fn arctangent_by_quadrant() {
    assert_eq!(atan2(0, 0), 0);
    assert_eq!(atan2(0, 5), 0);
    assert_eq!(atan2(1000, 1000), 785);
    assert_eq!(atan2(5, 0), HALF_PI);
    assert_eq!(atan2(0, -5), PI);
    assert_eq!(atan2(-1, 0), -HALF_PI);
    assert_eq!(atan2(-1000, 1000), -785);
    assert_eq!(atan2(1000, -1000), PI - 785);
    assert_eq!(atan2(-1000, -1000), 785 - PI);
    assert_eq!(atan2(i32::MIN, i32::MIN), 785 - PI);
}

#[test]
fn lerp_moves_a_share_of_the_way() {
    assert_eq!(lerp(0, 100, 250), 25);
    assert_eq!(lerp(10, 0, 500), 5);
    assert_eq!(lerp(0, -1, 500), -1);
    assert_eq!(lerp(7, 7, 900), 7);
    assert_eq!(lerp(0, 100, 0), 0);
    assert_eq!(lerp(0, 100, 1000), 100);
    assert_eq!(lerp(i32::MIN, i32::MAX, i32::MAX), i32::MAX);
    assert_eq!(Vec2::new(0, 10).lerp(Vec2::new(100, 0), 500), Vec2::new(50, 5));
}

#[test]
fn angle_lerp_takes_the_short_way_round() {
    assert_eq!(angle_lerp(0, 1000, 500), 500);
    assert_eq!(angle_lerp(3000, -3000, 500), 3142);
    assert_eq!(angle_lerp(-3000, 3000, 500), 3142);
    assert_eq!(angle_lerp(-3000, 3000, 0), 3284);
    assert_eq!(angle_lerp(100, 100, 800), 100);
}

#[test]
fn from_angle_is_a_unit_vector() {
    assert_eq!(Vec2::from_angle(0), Vec2::new(1000, 0));
    assert_eq!(Vec2::from_angle(HALF_PI), Vec2::new(0, 1000));
    assert_eq!(Vec2::from_angle(PI), Vec2::new(-1000, 0));
}

#[test]
fn ring_point_lies_at_the_distance() {
    let o = Vec2::new(100, 200);
    assert_eq!(ring_point(&o, 0, 5000), Vec2::new(5100, 200));
    assert_eq!(ring_point(&o, HALF_PI, 5000), Vec2::new(100, 5200));
    assert_eq!(ring_point(&o, PI, 5000), Vec2::new(-4900, 200));
    assert_eq!(ring_point(&o, 524, 0), o);
}

#[test]
fn random_angle_is_less_than_a_turn_and_moves() {
    let mut seen = Vec::new();
    for _ in 0..200 {
        let a = random_angle();
        assert!(0 <= a && a < TAU);
        if !seen.contains(&a) {
            seen.push(a);
        }
    }
    // neither always the lower bound nor always the upper
    assert!(seen.len() > 100);
}

#[test]
fn random_ring_point_lies_in_the_ring() {
    let o = Vec2::new(-3000, 7000);
    for _ in 0..200 {
        let p = random_ring_point(&o, 3200, 9600);
        let d2 = p.distance_squared(o);
        assert!(d2 <= 9601 * 9601);
        assert!(d2 >= 3190 * 3190);
    }
}
