use orbit_core::geometry::get_is_clockwise;
use orbit_core::node::{Color, Node};
use orbit_core::player::{check_turn, Player, PLAYER_BBOX, PLAYER_SPEED};
use orbit_core::vector::{Vec2, WORLD_LIMIT};

fn node(x: i64, y: i64, radius: u32) -> Node {
    Node { pos: Vec2 { x, y }, radius, color: Color::Green }
}

/// Cosine and sine of an angle given in millionths of a radian, in millionths.
fn turn_of(angle: u64) -> Vec2 {
    let a = angle as f64 / 1e6;
    Vec2 { x: (a.cos() * 1e6).round() as i64, y: (a.sin() * 1e6).round() as i64 }
}

fn radius_of(p: &Player, n: &Node) -> f64 {
    ((p.pos.dist_sq(n.pos)) as f64).sqrt()
}

fn angle_of(p: &Player, n: &Node) -> f64 {
    ((p.pos.y - n.pos.y) as f64).atan2((p.pos.x - n.pos.x) as f64)
}

#[test]
fn new_player_starts_at_the_origin_heading_up() {
    let p = Player::new();
    assert_eq!(p.pos, Vec2 { x: 0, y: 0 });
    assert_eq!(p.facing, Vec2 { x: 0, y: 1_000_000 });
    assert_eq!(p.speed, 4_000_000);
    assert_eq!(p.speed, PLAYER_SPEED);
    assert_eq!(p.bbox, 50_000);
    assert_eq!(p.bbox, PLAYER_BBOX);
    assert_eq!(p.time_disconnected, 0);
    assert!(p.check());
}

#[test]
fn check_rejects_a_player_outside_the_world_or_without_heading() {
    let mut p = Player::new();
    p.pos.x = WORLD_LIMIT;
    assert!(p.check());
    p.pos.x = WORLD_LIMIT + 1;
    assert!(!p.check());
    p.pos.x = 0;
    p.pos.y = -WORLD_LIMIT - 1;
    assert!(!p.check());
    p.pos.y = 0;
    p.facing = Vec2 { x: 0, y: 0 };
    assert!(!p.check());
    p.facing = Vec2 { x: -600_000, y: 800_000 };
    assert!(p.check());
}

#[test]
fn free_flight_moves_along_the_heading() {
    let mut p = Player::new();
    p.advance_free(250_000);
    assert_eq!(p.pos, Vec2 { x: 0, y: 1_000_000 });
    assert_eq!(p.facing, Vec2 { x: 0, y: 1_000_000 });
    assert_eq!(p.time_disconnected, 0);
    p.facing = Vec2 { x: 600_000, y: -800_000 };
    p.advance_free(1_000_000);
    assert_eq!(p.pos, Vec2 { x: 2_400_000, y: -2_200_000 });
    assert_eq!(p.facing, Vec2 { x: 600_000, y: -800_000 });
    p.advance_free(0);
    assert_eq!(p.pos, Vec2 { x: 2_400_000, y: -2_200_000 });
}

#[test]
fn free_flight_rounds_to_the_nearest_step() {
    let mut p = Player::new();
    p.speed = 1;
    // 0.5 millionths: rounds away from zero
    assert_eq!(p.free_displacement(500_000), Vec2 { x: 0, y: 1 });
    assert_eq!(p.free_displacement(499_999), Vec2 { x: 0, y: 0 });
    p.facing = Vec2 { x: 0, y: -1_000_000 };
    assert_eq!(p.free_displacement(500_000), Vec2 { x: 0, y: -1 });
    p.speed = 3_000_000;
    p.facing = Vec2 { x: 707_107, y: 707_107 };
    // 3 units per second for 1/3 second
    assert_eq!(p.free_displacement(333_333), Vec2 { x: 707_106, y: 707_106 });
}

#[test]
fn free_flight_is_refused_at_the_edge_of_the_world() {
    let mut p = Player::new();
    p.pos.y = WORLD_LIMIT - 1_000_000;
    assert!(p.can_advance_free(250_000));
    assert!(!p.can_advance_free(250_001));
    p.facing = Vec2 { x: 0, y: -1_000_000 };
    assert!(p.can_advance_free(u32::MAX));
}

#[test]
fn orbit_angle_is_arc_over_radius() {
    let p = Player::new();
    let n = node(0, 1_500_000, 100_000);
    // a quarter of the period 2 pi r / speed
    assert_eq!(p.orbit_angle(&n, 589_049), 1_570_797);
    assert_eq!(p.orbit_angle(&n, 0), 0);
    // one radian: the arc equals the radius
    assert_eq!(p.orbit_angle(&n, 375_000), 1_000_000);
    let far = node(3_000_000, 4_000_000, 100_000);
    assert_eq!(p.orbit_angle(&far, 1_250_000), 1_000_000);
}

#[test]
fn orbit_by_a_quarter_turn() {
    let n = node(0, 1_500_000, 100_000);
    let mut p = Player::new();
    p.orbit(&n, 589_049, Vec2 { x: 0, y: 1_000_000 }, false);
    assert_eq!(p.pos, Vec2 { x: 1_500_000, y: 1_500_000 });
    assert_eq!(p.facing, Vec2 { x: 0, y: 1_000_000 });
    let mut q = Player::new();
    q.orbit(&n, 589_049, Vec2 { x: 0, y: 1_000_000 }, true);
    assert_eq!(q.pos, Vec2 { x: -1_500_000, y: 1_500_000 });
    assert_eq!(q.facing, Vec2 { x: 0, y: 1_000_000 });
    assert_eq!(q.speed, PLAYER_SPEED);
    assert_eq!(q.time_disconnected, 0);
}

#[test]
fn orbit_for_a_quarter_period() {
    let n = node(0, 1_500_000, 100_000);
    let mut p = Player::new();
    let angle = p.orbit_angle(&n, 589_049);
    let turn = turn_of(angle);
    assert!(turn.check_unit());
    assert!(p.can_orbit(&n, 589_049, turn, false));
    p.orbit(&n, 589_049, turn, false);
    assert!((p.pos.x - 1_500_000).abs() <= 3);
    assert!((p.pos.y - 1_500_000).abs() <= 3);
    assert!((radius_of(&p, &n) - 1_500_000.0).abs() <= 3.0);
    assert!(p.facing.x.abs() <= 3);
    assert!((p.facing.y - 1_000_000).abs() <= 3);
}

#[test]
fn orbit_keeps_the_radius_over_uneven_steps() {
    let n = node(200_000, 1_500_000, 100_000);
    let mut p = Player::new();
    let start = radius_of(&p, &n);
    let mut dt: u32 = 1_000;
    for step in 0..300u32 {
        dt = (dt * 7 + step * 13) % 40_000 + 100;
        let turn = turn_of(p.orbit_angle(&n, dt));
        assert!(p.pos != n.pos);
        assert!(p.can_orbit(&n, dt, turn, step % 2 == 0 || step > 100));
        p.orbit(&n, dt, turn, step % 2 == 0 || step > 100);
        assert!((radius_of(&p, &n) - start).abs() < 2.0 * (step + 1) as f64);
        assert!(p.facing.check_unit());
    }
    assert!((radius_of(&p, &n) - start).abs() / start < 1e-3);
}

#[test]
fn orbit_returns_after_one_period() {
    let n = node(-300_000, 900_000, 100_000);
    let mut p = Player::new();
    let begin = p.pos;
    let radius = radius_of(&p, &n);
    // period = 2 pi r / speed, in microseconds, cut into 200 ticks
    let period = 2.0 * std::f64::consts::PI * radius / 4_000_000.0 * 1e6;
    let dt = (period / 200.0).round() as u32;
    for _ in 0..200 {
        let turn = turn_of(p.orbit_angle(&n, dt));
        assert!(p.can_orbit(&n, dt, turn, false));
        p.orbit(&n, dt, turn, false);
    }
    let away = ((p.pos.dist_sq(begin)) as f64).sqrt();
    assert!(away / radius < 1e-3);
}

#[test]
fn orbit_sense_follows_the_flag() {
    let n = node(300_000, 1_500_000, 100_000);
    let begin = Player::new();
    assert!(get_is_clockwise(&begin, &n));
    let mut cw = begin;
    let mut ccw = begin;
    let mut last_cw = angle_of(&cw, &n);
    let mut last_ccw = angle_of(&ccw, &n);
    for _ in 0..20 {
        let turn = turn_of(cw.orbit_angle(&n, 16_667));
        cw.orbit(&n, 16_667, turn, true);
        let turn = turn_of(ccw.orbit_angle(&n, 16_667));
        ccw.orbit(&n, 16_667, turn, false);
        assert!(angle_of(&cw, &n) < last_cw);
        assert!(angle_of(&ccw, &n) > last_ccw);
        last_cw = angle_of(&cw, &n);
        last_ccw = angle_of(&ccw, &n);
        // the heading stays tangent in the sense of the orbit
        assert!(get_is_clockwise(&cw, &n));
        assert!(!get_is_clockwise(&ccw, &n));
        assert_eq!(cw.facing.dot(cw.pos.minus(n.pos)).abs() / 1_000_000 / 1_000_000, 0);
    }
}

#[test]
fn orbit_is_refused_at_the_edge_of_the_world() {
    let n = node(WORLD_LIMIT - 1_000_000, 0, 100_000);
    let mut p = Player::new();
    p.pos = Vec2 { x: WORLD_LIMIT - 3_000_000, y: 0 };
    // radius 2, speed 4: half a turn takes pi / 2 seconds and would end two
    // units beyond the node
    assert_eq!(p.orbit_angle(&n, 1_570_796), 3_141_592);
    assert!(!p.can_orbit(&n, 1_570_796, Vec2 { x: -1_000_000, y: 0 }, false));
    assert_eq!(p.orbit_angle(&n, 785_398), 1_570_796);
    assert!(p.can_orbit(&n, 785_398, Vec2 { x: 0, y: 1_000_000 }, false));
    assert!(p.can_orbit(&n, 0, Vec2 { x: 1_000_000, y: 0 }, true));
}

#[test]
fn turn_is_held_against_its_angle() {
    // a right angle
    assert!(check_turn(Vec2 { x: 0, y: 1_000_000 }, 1_570_796));
    assert!(check_turn(turn_of(1_570_796), 1_570_796));
    // no turn at all
    assert!(check_turn(Vec2 { x: 1_000_000, y: 0 }, 0));
    assert!(!check_turn(Vec2 { x: 0, y: 1_000_000 }, 0));
    assert!(!check_turn(Vec2 { x: -1_000_000, y: 0 }, 0));
    // a tenth of a radian: sine 0.0998334, cosine 0.9950042
    assert!(check_turn(Vec2 { x: 995_004, y: 99_833 }, 100_000));
    assert!(!check_turn(Vec2 { x: 995_004, y: -99_833 }, 100_000));
    // the turn of twice the angle, or of half of it
    assert!(!check_turn(turn_of(200_000), 100_000));
    assert!(!check_turn(turn_of(50_000), 100_000));
    // the sine may not exceed the angle
    assert!(!check_turn(Vec2 { x: 1_000_000, y: 1_001 }, 1_000));
    assert!(check_turn(Vec2 { x: 1_000_000, y: 1_000 }, 1_000));
    // not a direction
    assert!(!check_turn(Vec2 { x: 995_004, y: 99_000 }, 100_000));
    assert!(!check_turn(Vec2 { x: 0, y: 0 }, 9_000_000));
    // beyond four radians any direction passes
    assert!(check_turn(Vec2 { x: 0, y: 1_000_000 }, 4_000_001));
    assert!(check_turn(Vec2 { x: 1_000_000, y: 0 }, u64::MAX));
    assert!(!check_turn(Vec2 { x: 1_000_000, y: 2_001 }, u64::MAX));
    // half a turn is not mistaken for none
    assert!(!check_turn(Vec2 { x: 1_000_000, y: 0 }, 3_141_593));
    assert!(check_turn(Vec2 { x: -1_000_000, y: 0 }, 3_141_593));
    for angle in (0..4_000_000u64).step_by(997) {
        assert!(check_turn(turn_of(angle), angle));
    }
}
