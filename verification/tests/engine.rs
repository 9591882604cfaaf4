//! Tests for the fixed-point collision engine. One spatial unit is
//! 100_000 sub-units, so the engine's tolerance of one thousandth of a
//! unit is 100 sub-units.

use ball_bounce::ball::Ball;
use ball_bounce::circle::Circle;
use ball_bounce::collision::{ball_collisions, resolve_ball_ball};
use ball_bounce::num::{div_trunc, isqrt, mul_div_trunc};
use ball_bounce::polygon::{hex_resolve, RegularHexagon};
use ball_bounce::rect::{resolve_rect, Rect};
use ball_bounce::simulation::{Boundary, Simulation};
use ball_bounce::vec2::Vec2;

fn ball(x: i64, y: i64, r: i64, vx: i64, vy: i64) -> Ball {
    Ball::new(Circle::new(x, y, r), Vec2::new(vx, vy))
}

fn dist_sq(a: &Ball, b: &Ball) -> i64 {
    let dx = b.cir.x - a.cir.x;
    let dy = b.cir.y - a.cir.y;
    dx * dx + dy * dy
}

fn energy(b: &Ball) -> i64 {
    b.vel.x * b.vel.x + b.vel.y * b.vel.y
}

#[test]
fn div_trunc_rounds_toward_zero() {
    assert_eq!(div_trunc(7, 2), 3);
    assert_eq!(div_trunc(-7, 2), -3);
    assert_eq!(div_trunc(0, 5), 0);
}

#[test]
fn mul_div_trunc_signs() {
    assert_eq!(mul_div_trunc(6, 7, 4), 10);
    assert_eq!(mul_div_trunc(-6, 7, 4), -10);
    assert_eq!(mul_div_trunc(6, -7, 4), -10);
    assert_eq!(mul_div_trunc(-6, -7, 4), 10);
}

#[test]
fn isqrt_windows() {
    assert_eq!(isqrt(0), 0);
    assert_eq!(isqrt(24), 4);
    assert_eq!(isqrt(25), 5);
    assert_eq!(isqrt(26), 5);
    assert_eq!(isqrt(2_250_000_000_000), 1_500_000);
}

#[test]
fn circle_overlap_touching_counts() {
    let a = Circle::new(0, 0, 1_000_000);
    let b = Circle::new(2_000_000, 0, 1_000_000);
    let c = Circle::new(2_000_001, 0, 1_000_000);
    assert!(a.overlaps(&b));
    assert!(!a.overlaps(&c));
}

#[test]
fn head_on_swap() {
    // Ball A at the origin moving right at 5, ball B fifteen units away
    // moving left at 5, both of radius ten: the collision normal is the x
    // axis, the velocities exchange exactly, and the centers are shifted
    // symmetrically by (20 - 15 + 0.001)/2 = 2.5005 units each way.
    let a = ball(0, 0, 1_000_000, 500_000, 0);
    let b = ball(1_500_000, 0, 1_000_000, -500_000, 0);
    let (a2, b2) = resolve_ball_ball(&a, &b);
    assert_eq!(a2.vel, Vec2::new(-500_000, 0));
    assert_eq!(b2.vel, Vec2::new(500_000, 0));
    assert_eq!(a2.cir.x, -250_050);
    assert_eq!(b2.cir.x, 1_750_050);
    let d = b2.cir.x - a2.cir.x;
    // Distance at least 20 - 0.001 units.
    assert!(d >= 2_000_000 - 100);
}

#[test]
fn resolution_separates_diagonal_pair() {
    let a = ball(0, 0, 1_000_000, 300_000, 100_000);
    let b = ball(900_000, 800_000, 1_000_000, -200_000, 50_000);
    assert!(a.cir.overlaps(&b.cir));
    let (a2, b2) = resolve_ball_ball(&a, &b);
    let sum = a2.cir.r + b2.cir.r;
    assert!(dist_sq(&a2, &b2) > sum * sum);
}

#[test]
fn energy_conserved_within_tolerance() {
    // Balls at (0,0) and (9,8) units with velocities (3,1) and (-2,0.5):
    // kinetic energy before and after the resolution agrees within the
    // engine's tolerance of 0.001 unit^2, which is 10^7 in sub-unit
    // squares.
    let a = ball(0, 0, 1_000_000, 300_000, 100_000);
    let b = ball(900_000, 800_000, 1_000_000, -200_000, 50_000);
    let before = energy(&a) + energy(&b);
    let (a2, b2) = resolve_ball_ball(&a, &b);
    let after = energy(&a2) + energy(&b2);
    assert!((before - after).abs() <= 10_000_000);
}

#[test]
fn positional_correction_splits_equally() {
    // The two centers move by exactly opposite shifts: their sum is
    // unchanged by the resolution.
    let a = ball(0, 0, 1_000_000, 300_000, 100_000);
    let b = ball(900_000, 800_000, 1_000_000, -200_000, 50_000);
    let (a2, b2) = resolve_ball_ball(&a, &b);
    assert_eq!(a2.cir.x + b2.cir.x, a.cir.x + b.cir.x);
    assert_eq!(a2.cir.y + b2.cir.y, a.cir.y + b.cir.y);
}

#[test]
fn non_overlapping_pair_untouched() {
    let a = ball(0, 0, 1_000_000, 100_000, 0);
    let b = ball(5_000_000, 0, 1_000_000, -100_000, 0);
    let (a2, b2) = resolve_ball_ball(&a, &b);
    assert_eq!(a2, a);
    assert_eq!(b2, b);
}

#[test]
fn gravity_accumulates_linearly() {
    // vel.y starts at zero; with gravity 1.1 units it is 1.1 * n after n
    // frames with no floor contact.
    let mut sim = Simulation::new(
        vec![ball(0, 0, 1_000_000, 0, 0)],
        Boundary::Unbounded,
        110_000,
        0,
    );
    for _ in 0..10 {
        sim.step(None);
    }
    assert_eq!(sim.balls[0].vel.y, 1_100_000);
    assert_eq!(sim.balls[0].vel.x, 0);
}

#[test]
fn right_edge_reflects_with_damping() {
    // A ball crossing the right viewport edge with vel.x of eight units
    // ends the step with vel.x of minus 7.2 units.
    let mut sim = Simulation::new(
        vec![ball(59_500_000, 30_000_000, 1_000_000, 800_000, 0)],
        Boundary::Viewport,
        0,
        0,
    );
    sim.step(Some((60_000_000, 60_000_000)));
    assert_eq!(sim.balls[0].vel.x, -720_000);
}

#[test]
fn floor_damps_and_drags() {
    let mut sim = Simulation::new(
        vec![ball(30_000_000, 59_500_000, 1_000_000, 100_000, 400_000)],
        Boundary::Viewport,
        110_000,
        0,
    );
    sim.step(Some((60_000_000, 60_000_000)));
    // Floor contact: vy = -0.70 * |vy|, vx dragged by 99/100, no gravity.
    assert_eq!(sim.balls[0].vel.y, -280_000);
    assert_eq!(sim.balls[0].vel.x, 99_000);
}

#[test]
fn hexagon_rotation_keeps_radius_and_center() {
    let mut hex = RegularHexagon::new(Vec2::new(40_000_000, 30_000_000), 10_000_000);
    let before = (hex.center, hex.circumradius);
    assert_eq!(hex.orientation, 200);
    for _ in 0..500 {
        hex.rotate(3);
    }
    assert_eq!((hex.center, hex.circumradius), before);
    assert_eq!(hex.orientation, (200 + 1_500) % 1_200);
    assert_eq!(hex.vertex_angle(0), 500);
    assert_eq!(hex.vertex_angle(1), 700);
}

#[test]
fn hexagon_clamps_escaped_ball() {
    let hex = RegularHexagon::new(Vec2::new(0, 0), 10_000_000);
    let b = ball(12_000_000, 0, 1_000_000, 200_000, -100_000);
    let r2 = hex_resolve(&b, &hex);
    let dx = r2.cir.x;
    let dy = r2.cir.y;
    assert!(dx * dx + dy * dy <= 10_000_000i64 * 10_000_000);
    assert_eq!(r2.vel, Vec2::new(-180_000, 90_000));
}

#[test]
fn ball_inside_hexagon_untouched() {
    let hex = RegularHexagon::new(Vec2::new(0, 0), 10_000_000);
    let b = ball(5_000_000, 1_000_000, 1_000_000, 200_000, -100_000);
    let r2 = hex_resolve(&b, &hex);
    assert_eq!(r2, b);
}

#[test]
fn wall_pushes_ball_out() {
    let wall = Rect::new(10_000_000, -5_000_000, 4_000_000, 10_000_000);
    let b = ball(9_500_000, 0, 1_000_000, 300_000, 0);
    assert!(b.cir.overlaps_rect(&wall));
    let r2 = resolve_rect(&b, &wall);
    // Pushed out through the left face, just clear of it, moving away.
    assert_eq!(r2.cir.x, 10_000_000 - 1_000_000 - 100);
    assert_eq!(r2.vel.x, -300_000);
    assert!(!r2.cir.overlaps_rect(&wall));
}

#[test]
fn rest_state_is_fixed() {
    // Gravity zero and all velocities zero: repeated steps leave every
    // ball in place (the hexagon still rotates).
    let hex = RegularHexagon::new(Vec2::new(0, 0), 10_000_000);
    let balls = vec![
        ball(-3_000_000, 0, 1_000_000, 0, 0),
        ball(3_000_000, 0, 1_000_000, 0, 0),
    ];
    let mut sim = Simulation::new(balls.clone(), Boundary::Hexagon(hex), 0, 3);
    for _ in 0..5 {
        sim.step(None);
    }
    assert_eq!(sim.balls, balls);
    assert_eq!(sim.boundary, Boundary::Hexagon(RegularHexagon {
        center: Vec2::new(0, 0),
        circumradius: 10_000_000,
        orientation: 215,
    }));
}

#[test]
fn identical_simulations_stay_identical() {
    let mk = || {
        Simulation::new(
            vec![
                ball(10_000_000, 10_000_000, 1_000_000, 400_000, -200_000),
                ball(13_000_000, 11_000_000, 1_000_000, -300_000, 100_000),
                ball(30_000_000, 20_000_000, 1_500_000, 0, 500_000),
            ],
            Boundary::Viewport,
            110_000,
            0,
        )
    };
    let mut s1 = mk();
    let mut s2 = mk();
    for _ in 0..50 {
        s1.step(Some((60_000_000, 40_000_000)));
        s2.step(Some((60_000_000, 40_000_000)));
    }
    assert_eq!(s1.balls, s2.balls);
    assert_eq!(s1.boundary, s2.boundary);
}

#[test]
fn coincident_centers_fall_back_to_x_axis() {
    let a = ball(0, 0, 1_000_000, 0, 0);
    let b = ball(0, 0, 1_000_000, 0, 0);
    let (a2, b2) = resolve_ball_ball(&a, &b);
    let sum = a2.cir.r + b2.cir.r;
    assert!(dist_sq(&a2, &b2) > sum * sum);
    // Split symmetrically along the x axis.
    assert_eq!(a2.cir.x, -b2.cir.x);
    assert_eq!(a2.cir.y, 0);
    assert_eq!(b2.cir.y, 0);
}

#[test]
fn collision_pass_visits_pairs_in_order() {
    let mut balls = vec![
        ball(0, 0, 1_000_000, 0, 0),
        ball(1_500_000, 0, 1_000_000, 0, 0),
        ball(50_000_000, 0, 1_000_000, 0, 0),
    ];
    ball_collisions(&mut balls);
    let sum = balls[0].cir.r + balls[1].cir.r;
    let dx = balls[1].cir.x - balls[0].cir.x;
    let dy = balls[1].cir.y - balls[0].cir.y;
    assert!(dx * dx + dy * dy > sum * sum);
    // The far ball is untouched.
    assert_eq!(balls[2], ball(50_000_000, 0, 1_000_000, 0, 0));
}

#[test]
fn snapshot_reports_centers_and_radii() {
    let sim = Simulation::new(
        vec![ball(100_000, 200_000, 1_000_000, 5, 6), ball(-700_000, 800_000, 1_200_000, 0, 0)],
        Boundary::Unbounded,
        0,
        0,
    );
    let snap = sim.snapshot();
    assert_eq!(snap.len(), 2);
    assert_eq!(snap[0], (Vec2::new(100_000, 200_000), 1_000_000));
    assert_eq!(snap[1], (Vec2::new(-700_000, 800_000), 1_200_000));
}

#[test]
fn hexagon_edges_pair_consecutive_vertices() {
    let mut hex = RegularHexagon::new(Vec2::new(0, 0), 10_000_000);
    hex.rotate(3);
    let edges = hex.edges();
    assert_eq!(edges.len(), 6);
    assert_eq!(edges[0], (203, 403));
    assert_eq!(edges[4], (1_003, 3));
    // The last edge wraps back to vertex 0.
    assert_eq!(edges[5], (3, 203));
}
