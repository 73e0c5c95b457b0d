use orbit_core::fixed::{isqrt, round_div, UNIT};
use orbit_core::vector::Vec2;

#[test]
fn round_div_rounds_to_nearest() {
    assert_eq!(round_div(7, 2), 4);
    assert_eq!(round_div(4, 10), 0);
    assert_eq!(round_div(6, 10), 1);
    assert_eq!(round_div(0, 5), 0);
    assert_eq!(round_div(1_499_999, 1_000_000), 1);
    assert_eq!(round_div(12, 4), 3);
}

#[test]
fn round_div_rounds_halves_away_from_zero() {
    assert_eq!(round_div(5, 10), 1);
    assert_eq!(round_div(-5, 10), -1);
    assert_eq!(round_div(-7, 2), -4);
    assert_eq!(round_div(-4, 10), 0);
    assert_eq!(round_div(15, 10), 2);
    assert_eq!(round_div(-15, 10), -2);
}

#[test]
fn isqrt_is_the_floor_of_the_root() {
    assert_eq!(isqrt(0), 0);
    assert_eq!(isqrt(1), 1);
    assert_eq!(isqrt(3), 1);
    assert_eq!(isqrt(4), 2);
    assert_eq!(isqrt(15), 3);
    assert_eq!(isqrt(16), 4);
    assert_eq!(isqrt(17), 4);
    assert_eq!(isqrt(1_000_000_000_000_000_000_000_000), 1_000_000_000_000);
    assert_eq!(isqrt(999_999_999_999_999_999_999_999), 999_999_999_999);
    assert_eq!(isqrt(u128::MAX), u64::MAX);
}

#[test]
fn isqrt_brackets_every_small_number() {
    for n in 0u128..5000 {
        let r = isqrt(n) as u128;
        assert!(r * r <= n);
        assert!((r + 1) * (r + 1) > n);
    }
}

#[test]
fn vector_arithmetic() {
    let a = Vec2::new(3, 4);
    let b = Vec2::new(-2, 5);
    assert_eq!(a.plus(b), Vec2 { x: 1, y: 9 });
    assert_eq!(a.minus(b), Vec2 { x: 5, y: -1 });
    assert_eq!(a.dot(b), 14);
    assert_eq!(a.perp_dot(b), 23);
    assert_eq!(b.perp_dot(a), -23);
    assert_eq!(a.norm_sq(), 25);
    assert_eq!(a.dist_sq(b), 26);
    assert_eq!(a.conjugate(), Vec2 { x: 3, y: -4 });
}

#[test]
fn check_unit_accepts_directions_only() {
    let unit = UNIT as i64;
    assert!(Vec2::new(unit, 0).check_unit());
    assert!(Vec2::new(0, -unit).check_unit());
    assert!(Vec2::new(600_000, 800_000).check_unit());
    assert!(Vec2::new(707_107, 707_107).check_unit());
    assert!(Vec2::new(unit + 1, 0).check_unit());
    assert!(!Vec2::new(unit + 3, 0).check_unit());
    assert!(!Vec2::new(unit - 3, 0).check_unit());
    assert!(!Vec2::new(0, 0).check_unit());
    assert!(!Vec2::new(2_000_001, 0).check_unit());
    assert!(!Vec2::new(i64::MAX, i64::MIN).check_unit());
    assert!(!Vec2::new(unit, unit).check_unit());
}

#[test]
fn rotated_by_quarter_and_half_turns() {
    let unit = UNIT as i64;
    let v = Vec2::new(3_000, 4_000);
    assert_eq!(v.rotated(Vec2::new(unit, 0)), v);
    assert_eq!(v.rotated(Vec2::new(0, unit)), Vec2 { x: -4_000, y: 3_000 });
    assert_eq!(v.rotated(Vec2::new(-unit, 0)), Vec2 { x: -3_000, y: -4_000 });
    assert_eq!(v.rotated(Vec2::new(0, -unit)), Vec2 { x: 4_000, y: -3_000 });
    // cos = 0.6, sin = 0.8
    assert_eq!(Vec2::new(1_000, 0).rotated(Vec2::new(600_000, 800_000)), Vec2 { x: 600, y: 800 });
    // rounding: 0.6 and 0.8 of 7 are 4.2 and 5.6
    assert_eq!(Vec2::new(7, 0).rotated(Vec2::new(600_000, 800_000)), Vec2 { x: 4, y: 6 });
    assert_eq!(Vec2::new(-7, 0).rotated(Vec2::new(600_000, 800_000)), Vec2 { x: -4, y: -6 });
}

#[test]
fn rotation_by_the_mirror_image_undoes_a_rotation() {
    let turn = Vec2::new(600_000, 800_000);
    let v = Vec2::new(1_000_000, 2_000_000);
    let there = v.rotated(turn);
    assert_eq!(there, Vec2 { x: -1_000_000, y: 2_000_000 });
    assert_eq!(there.rotated(turn.conjugate()), v);
}

#[test]
fn normalized_gives_a_direction() {
    assert_eq!(Vec2::new(3, 4).normalized(), Vec2 { x: 600_000, y: 800_000 });
    assert_eq!(Vec2::new(0, -17).normalized(), Vec2 { x: 0, y: -1_000_000 });
    assert_eq!(Vec2::new(1, 1).normalized(), Vec2 { x: 707_107, y: 707_107 });
    assert_eq!(Vec2::new(-1_500_000, 0).normalized(), Vec2 { x: -1_000_000, y: 0 });
    let reach = 0x200_0000_0000i64;
    for v in [
        Vec2::new(1, 0),
        Vec2::new(1, -1),
        Vec2::new(123_456_789, -987_654_321),
        Vec2::new(reach, reach),
        Vec2::new(-reach, 1),
        Vec2::new(2, 1),
    ] {
        assert!(v.normalized().check_unit());
    }
}

#[test]
fn scaled_length_is_the_length_in_millionths() {
    assert_eq!(Vec2::new(3, 4).scaled_length(), 5_000_000);
    assert_eq!(Vec2::new(0, 0).scaled_length(), 0);
    assert_eq!(Vec2::new(1, 1).scaled_length(), 1_414_213);
    assert_eq!(Vec2::new(0, -1_500_000).scaled_length(), 1_500_000_000_000);
}
