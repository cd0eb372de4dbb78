use combat_effects::ballistics::{aim_parabollically, AIM_LIMIT};
use combat_effects::fixed::{div_away, div_trunc, isqrt, Vec2, SCALE};

fn discriminant(dx: i128, dy: i128, g: i128, s: i128) -> i128 {
    s * s * s * s + 2 * g * dy * s * s - g * g * dx * dx
}

fn assert_reaches(dx: i64, dy: i64, g: i64, v: Vec2, t: i64) {
    let scale = SCALE as i128;
    let (dx, dy, g, vx, vy, t) =
        (dx as i128, dy as i128, g as i128, v.x as i128, v.y as i128, t as i128);
    assert!(t > 0);
    assert!(dx * vx > 0);
    assert!(dx.abs() * scale <= vx.abs() * t);
    assert!(vx.abs() * t <= dx.abs() * scale + vx.abs() + 2 * t - 2);
    assert!(
        (2 * scale * vy * t + g * t * t - 2 * scale * scale * dy).abs()
            < 2 * scale * (vy.abs() + 2 * t + 4) + g.abs() * (2 * t + 3)
    );
}

fn assert_at_speed(v: Vec2, s: i64) {
    let (vx, vy, s) = (v.x as i128, v.y as i128, s as i128);
    let shorter = if vx == 0 { 0 } else { vx.abs() - 1 };
    assert!(shorter * shorter + vy * vy <= s * s + 2 * s.abs());
    assert!((vx.abs() + 1) * (vx.abs() + 1) + (vy.abs() + 1) * (vy.abs() + 1) + 3 > s * s);
}

#[test]
fn level_shot_solves_the_system() {
    // delta = (10, 0), gravity = -1, speed = 5: the discriminant is 525.
    assert_eq!(discriminant(10, 0, -1, 5), 525);
    let (v, t) = aim_parabollically(Vec2 { x: 10_000, y: 0 }, -1_000, 5_000).unwrap();
    assert_eq!(v, Vec2 { x: 4_895, y: 1_021 });
    assert_eq!(t, 2_044);
    assert_reaches(10_000, 0, -1_000, v, t);
    assert_at_speed(v, 5_000);
}

#[test]
fn level_shot_substitutes_within_tolerance() {
    let (v, t) = aim_parabollically(Vec2 { x: 10_000, y: 0 }, -1_000, 5_000).unwrap();
    let (vx, vy, t) = (v.x as f64 / 1000.0, v.y as f64 / 1000.0, t as f64 / 1000.0);
    assert!((vx * t - 10.0).abs() < 0.01);
    assert!((vy * t + -1.0 * t * t / 2.0 - 0.0).abs() < 0.01);
    assert!((vx * vx + vy * vy - 25.0).abs() < 0.05);
}

#[test]
fn negative_discriminant_has_no_solution() {
    // 625 + 0 - 10000 < 0
    assert!(discriminant(100, 0, -1, 5) < 0);
    assert_eq!(aim_parabollically(Vec2 { x: 100_000, y: 0 }, -1_000, 5_000), None);
    // too high to reach
    assert!(discriminant(1, 50, -1, 5) < 0);
    assert_eq!(aim_parabollically(Vec2 { x: 1_000, y: 50_000 }, -1_000, 5_000), None);
}

#[test]
fn zero_discriminant_still_solves() {
    // s = 1, g = -1, dx = 1, dy = 0: the discriminant is 1 - 1 = 0, both roots coincide
    assert_eq!(discriminant(1, 0, -1, 1), 0);
    let (v, t) = aim_parabollically(Vec2 { x: 1_000, y: 0 }, -1_000, 1_000).unwrap();
    assert_eq!(v, Vec2 { x: 708, y: 707 });
    assert_eq!(t, 1_415);
    assert_reaches(1_000, 0, -1_000, v, t);
}

#[test]
fn flat_shot_is_preferred_over_lob() {
    // The lower root of the level shot has the weight 25 - sqrt(525) = 2.087122;
    // its launch is the lob (1.022, 4.894) with a flight of 9.790. The solver
    // returns the upper one, which lands first.
    let (v, t) = aim_parabollically(Vec2 { x: 10_000, y: 0 }, -1_000, 5_000).unwrap();
    let divisor = isqrt(2 * 100_000_000 * 2_087_122);
    assert_eq!(divisor, 20_430_966);
    let lob_time = div_away(2 * 100_000_000 * 1000, divisor as i128) as i64;
    assert_eq!(lob_time, 9_790);
    assert!(t < lob_time);
    assert_eq!(v, Vec2 { x: 4_895, y: 1_021 });
}

#[test]
fn flight_under_a_tick_is_still_the_earliest() {
    // 0.004 away under gravity -9.81 at speed 5: both roots are positive, and
    // the flat shot takes 0.0008, which rounds up to one tick
    let (v, t) = aim_parabollically(Vec2 { x: 4, y: 0 }, -9_810, 5_000).unwrap();
    assert_eq!(v, Vec2 { x: 5_001, y: 3 });
    assert_eq!(t, 1);
    assert_reaches(4, 0, -9_810, v, t);
    assert_at_speed(v, 5_000);
}

#[test]
fn launch_always_takes_time_and_moves_towards_the_target() {
    // a thousandth to the right and ten up: nearly straight up, yet to the right
    let (v, t) = aim_parabollically(Vec2 { x: 1, y: 10_000 }, 0, 5_000).unwrap();
    assert_eq!((v, t), (Vec2 { x: 1, y: 5_000 }, 2_001));
    assert_reaches(1, 10_000, 0, v, t);
    assert_at_speed(v, 5_000);
    let (v, t) = aim_parabollically(Vec2 { x: -1, y: 10_000 }, 0, 5_000).unwrap();
    assert_eq!((v, t), (Vec2 { x: -1, y: 5_000 }, 2_001));
    // just under one to the right at speed 1000: a flight just under a tick
    let (v, t) = aim_parabollically(Vec2 { x: 999, y: 0 }, 0, 1_000_000).unwrap();
    assert_eq!((v, t), (Vec2 { x: 1_000_000, y: 0 }, 1));
    assert_reaches(999, 0, 0, v, t);
}

#[test]
fn close_and_steep_shots_keep_the_speed() {
    let (v, t) = aim_parabollically(Vec2 { x: 7, y: 7 }, 0, 5_000).unwrap();
    assert_eq!((v, t), (Vec2 { x: 3_536, y: 3_535 }, 2));
    assert_at_speed(v, 5_000);
    let (v, t) = aim_parabollically(Vec2 { x: 100, y: 100_000 }, 0, 5_000).unwrap();
    assert_eq!((v, t), (Vec2 { x: 5, y: 4_999 }, 20_001));
    assert_at_speed(v, 5_000);
    let (v, t) = aim_parabollically(Vec2 { x: 500, y: 500 }, 0, 30_000).unwrap();
    assert_eq!((v, t), (Vec2 { x: 21_214, y: 21_213 }, 24));
    assert_at_speed(v, 30_000);
}

#[test]
fn shot_to_the_left_mirrors_shot_to_the_right() {
    let (right, t_right) = aim_parabollically(Vec2 { x: 10_000, y: 2_000 }, -1_000, 6_000).unwrap();
    let (left, t_left) = aim_parabollically(Vec2 { x: -10_000, y: 2_000 }, -1_000, 6_000).unwrap();
    assert_eq!(left.x, -right.x);
    assert_eq!(left.y, right.y);
    assert_eq!(t_left, t_right);
    assert!(left.x < 0);
    assert_reaches(-10_000, 2_000, -1_000, left, t_left);
}

#[test]
fn target_straight_above_has_no_solution() {
    assert_eq!(aim_parabollically(Vec2 { x: 0, y: 1_000 }, -1_000, 5_000), None);
    assert_eq!(aim_parabollically(Vec2 { x: 0, y: -1_000 }, -1_000, 5_000), None);
    assert_eq!(aim_parabollically(Vec2 { x: 0, y: 0 }, -1_000, 5_000), None);
}

#[test]
fn zero_speed_has_no_solution() {
    assert_eq!(aim_parabollically(Vec2 { x: 1_000, y: 0 }, -1_000, 0), None);
    assert_eq!(aim_parabollically(Vec2 { x: 1_000, y: -1_000 }, -1_000, 0), None);
}

#[test]
fn without_gravity_the_shot_is_straight() {
    let (v, t) = aim_parabollically(Vec2 { x: 3_000, y: 4_000 }, 0, 5_000).unwrap();
    assert_eq!(v, Vec2 { x: 3_000, y: 4_000 });
    assert_eq!(t, 1_000);
}

#[test]
fn flight_shorter_than_a_tick_takes_a_tick() {
    // one thousandth away at speed 5: the flight takes 0.0002
    let (v, t) = aim_parabollically(Vec2 { x: 1, y: 0 }, 0, 5_000).unwrap();
    assert_eq!(v, Vec2 { x: 5_000, y: 0 });
    assert_eq!(t, 1);
}

#[test]
fn solver_works_at_its_limits() {
    let far = Vec2 { x: AIM_LIMIT, y: -AIM_LIMIT };
    let (v, t) = aim_parabollically(far, -AIM_LIMIT, AIM_LIMIT).unwrap();
    assert_eq!((v, t), (Vec2 { x: 923_879_533, y: -382_683_432 }, 1_083));
    assert_reaches(AIM_LIMIT, -AIM_LIMIT, -AIM_LIMIT, v, t);
    assert_at_speed(v, AIM_LIMIT);
    assert_eq!(aim_parabollically(Vec2 { x: AIM_LIMIT, y: AIM_LIMIT }, -AIM_LIMIT, 1), None);
}

#[test]
fn every_solution_on_a_grid_reaches_its_target() {
    let mut found = 0;
    for dx in [-40_000i64, -7_500, -1_000, -4, 1, 7, 999, 2_500, 12_345, 80_000] {
        for dy in [-30_000i64, -2_000, -7, 0, 3, 1_500, 20_000, 100_000] {
            for g in [-9_810i64, -1_000, 0, 500] {
                for s in [1i64, 800, 5_000, 30_000] {
                    let d = discriminant(dx as i128, dy as i128, g as i128, s as i128);
                    let result = aim_parabollically(Vec2 { x: dx, y: dy }, g, s);
                    assert_eq!(result.is_some(), d >= 0);
                    if let Some((v, t)) = result {
                        assert_reaches(dx, dy, g, v, t);
                        assert_at_speed(v, s);
                        found += 1;
                    }
                }
            }
        }
    }
    assert!(found > 100);
}

#[test]
fn isqrt_rounds_down() {
    assert_eq!(isqrt(0), 0);
    assert_eq!(isqrt(1), 1);
    assert_eq!(isqrt(3), 1);
    assert_eq!(isqrt(4), 2);
    assert_eq!(isqrt(24), 4);
    assert_eq!(isqrt(25), 5);
    assert_eq!(isqrt(525_000_000_000_000), 22_912_878);
    assert_eq!(isqrt(u128::MAX), u64::MAX);
    assert_eq!(isqrt((u64::MAX as u128) * (u64::MAX as u128) - 1), u64::MAX - 1);
}

#[test]
fn div_trunc_rounds_towards_zero() {
    assert_eq!(div_trunc(7, 2), 3);
    assert_eq!(div_trunc(-7, 2), -3);
    assert_eq!(div_trunc(7, -2), -3);
    assert_eq!(div_trunc(-7, -2), 3);
    assert_eq!(div_trunc(0, -5), 0);
    assert_eq!(div_trunc(6, 3), 2);
    assert_eq!(div_trunc(i128::MAX, 1), i128::MAX);
    assert_eq!(div_trunc(-i128::MAX, i128::MIN), 0);
}

#[test]
fn div_away_rounds_away_from_zero() {
    assert_eq!(div_away(7, 2), 4);
    assert_eq!(div_away(-7, 2), -4);
    assert_eq!(div_away(6, 3), 2);
    assert_eq!(div_away(-6, 3), -2);
    assert_eq!(div_away(1, 1_000), 1);
    assert_eq!(div_away(-1, 1_000), -1);
    assert_eq!(div_away(0, 5), 0);
    assert_eq!(div_away(i128::MAX, 1), i128::MAX);
    assert_eq!(div_away(i128::MAX, i128::MAX), 1);
    assert_eq!(div_away(-i128::MAX, 2), -(i128::MAX / 2 + 1));
}
