//! The simulation: all balls, one boundary, and the per-frame step.
//!
//! Each `step` performs, in this fixed order: ball-ball resolution, then
//! boundary resolution together with gravity, then position integration,
//! then boundary rotation. Resolving collisions before integrating keeps
//! the resolution from working on stale overlap data.

use vstd::prelude::*;
use crate::num::{
    abs_spec, damp, mul_div_spec, GRAVITY_LIMIT, SCALE, VEL_LIMIT, COORD_LIMIT,
};
use crate::vec2::{Vec2, Vec2M};
use crate::ball::{Ball, BallM};
use crate::rect::{Rect, RectM, resolve_rect_spec, resolve_rects, resolve_rects_spec};
use crate::polygon::{RegularHexagon, PolyM, hex_resolve, hex_resolve_spec};
use crate::collision::{ball_collisions, ball_collisions_spec, views_of};

verus! {

/// Damping numerator for reflections off viewport edges: 0.90.
pub const EDGE_DAMP: i64 = 90_000;

/// Damping numerator for reflections off the viewport floor: 0.70.
pub const FLOOR_DAMP: i64 = 70_000;

/// Horizontal drag applied while touching the floor: 99/100.
pub const FLOOR_DRAG_NUM: i64 = 99;

/// Denominator of the floor drag fraction.
pub const FLOOR_DRAG_DEN: i64 = 100;

/// Mathematical value of a [`Boundary`].
pub ghost enum BoundaryM {
    Unbounded,
    Viewport,
    Rectangles(Seq<RectM>),
    Hexagon(PolyM),
}

/// The containment shape of a simulation.
#[derive(Clone, Debug, PartialEq, Eq)]
pub enum Boundary {
    /// No containment at all.
    Unbounded,
    /// The axis-aligned screen edges; the size is passed into `step`.
    Viewport,
    /// A set of static rectangular walls.
    Rectangles(Vec<Rect>),
    /// A rotating regular hexagon.
    Hexagon(RegularHexagon),
}

impl View for Boundary {
    type V = BoundaryM;

    open spec fn view(&self) -> BoundaryM {
        match self {
            Boundary::Unbounded => BoundaryM::Unbounded,
            Boundary::Viewport => BoundaryM::Viewport,
            Boundary::Rectangles(ws) => BoundaryM::Rectangles(ws@.map_values(|r: Rect| r@)),
            Boundary::Hexagon(p) => BoundaryM::Hexagon(p@),
        }
    }
}

/// Gravity adds to the vertical velocity once per frame.
pub open spec fn gravity_spec(b: BallM, g: int) -> BallM {
    if b.ok() && -GRAVITY_LIMIT <= g <= GRAVITY_LIMIT {
        BallM { cir: b.cir, vel: Vec2M { x: b.vel.x, y: b.vel.y + g } }
    } else {
        b
    }
}

/// Screen-edge bouncing: each edge the ball's leading point has crossed
/// reflects the matching velocity axis with a damped magnitude; the floor
/// additionally drags the horizontal component. The position is left to
/// the integrator. The second component reports floor contact.
pub open spec fn viewport_resolve_spec(b: BallM, w: int, h: int) -> (BallM, bool) {
    if !b.ok() || !(0 < w <= 2 * COORD_LIMIT) || !(0 < h <= 2 * COORD_LIMIT) {
        (b, false)
    } else {
        let c = b.cir.center;
        let r = b.cir.r;
        let bottom = c.y + r >= h;
        let vx0 = if c.x - r <= 0 {
            mul_div_spec(abs_spec(b.vel.x), EDGE_DAMP as int, SCALE as int)
        } else if c.x + r >= w {
            -mul_div_spec(abs_spec(b.vel.x), EDGE_DAMP as int, SCALE as int)
        } else {
            b.vel.x
        };
        let vy = if c.y - r <= 0 {
            mul_div_spec(abs_spec(b.vel.y), EDGE_DAMP as int, SCALE as int)
        } else if bottom {
            -mul_div_spec(abs_spec(b.vel.y), FLOOR_DAMP as int, SCALE as int)
        } else {
            b.vel.y
        };
        let vx = if bottom {
            mul_div_spec(vx0, FLOOR_DRAG_NUM as int, FLOOR_DRAG_DEN as int)
        } else {
            vx0
        };
        (BallM { cir: b.cir, vel: Vec2M { x: vx, y: vy } }, bottom)
    }
}

/// Boundary resolution and gravity for one ball: gravity is skipped only
/// while the ball is in contact with the viewport floor this frame.
pub open spec fn boundary_ball_spec(
    b: BallM,
    bd: BoundaryM,
    vp: Option<(i64, i64)>,
    g: int,
) -> BallM {
    match bd {
        BoundaryM::Unbounded => gravity_spec(b, g),
        BoundaryM::Viewport => match vp {
            Option::None => gravity_spec(b, g),
            Option::Some((w, h)) => {
                let r = viewport_resolve_spec(b, w as int, h as int);
                if r.1 {
                    r.0
                } else {
                    gravity_spec(r.0, g)
                }
            },
        },
        BoundaryM::Rectangles(ws) => gravity_spec(resolve_rects_spec(b, ws, 0), g),
        BoundaryM::Hexagon(p) => gravity_spec(hex_resolve_spec(b, p), g),
    }
}

/// Forward Euler: the ball moves by its velocity, one frame per step.
pub open spec fn move_ball_spec(b: BallM) -> BallM {
    if b.cir.ok() && abs_spec(b.vel.x) <= VEL_LIMIT + GRAVITY_LIMIT && abs_spec(b.vel.y)
        <= VEL_LIMIT + GRAVITY_LIMIT {
        BallM { cir: b.cir.offset(b.vel), vel: b.vel }
    } else {
        b
    }
}

/// Gravity for one ball.
fn gravity_ball(b: &Ball, g: i64) -> (r: Ball)
    ensures
        r@ == gravity_spec(b@, g as int),
{
    if b.ok() && -GRAVITY_LIMIT <= g && g <= GRAVITY_LIMIT {
        Ball::new(b.cir, Vec2::new(b.vel.x, b.vel.y + g))
    } else {
        *b
    }
}

/// Screen-edge bouncing for one ball.
fn viewport_ball(b: &Ball, w: i64, h: i64) -> (r: (Ball, bool))
    ensures
        r.0@ == viewport_resolve_spec(b@, w as int, h as int).0,
        r.1 == viewport_resolve_spec(b@, w as int, h as int).1,
{
    if !(b.ok() && 0 < w && w <= 2 * COORD_LIMIT && 0 < h && h <= 2 * COORD_LIMIT) {
        return (*b, false);
    }
    let ax = if b.vel.x >= 0 {
        b.vel.x
    } else {
        -b.vel.x
    };
    let ay = if b.vel.y >= 0 {
        b.vel.y
    } else {
        -b.vel.y
    };
    let bottom = b.cir.y + b.cir.r >= h;
    let vx0 = if b.cir.x - b.cir.r <= 0 {
        damp(ax, EDGE_DAMP, SCALE)
    } else if b.cir.x + b.cir.r >= w {
        -damp(ax, EDGE_DAMP, SCALE)
    } else {
        b.vel.x
    };
    let vy = if b.cir.y - b.cir.r <= 0 {
        damp(ay, EDGE_DAMP, SCALE)
    } else if bottom {
        -damp(ay, FLOOR_DAMP, SCALE)
    } else {
        b.vel.y
    };
    let vx = if bottom {
        damp(vx0, FLOOR_DRAG_NUM, FLOOR_DRAG_DEN)
    } else {
        vx0
    };
    (Ball::new(b.cir, Vec2::new(vx, vy)), bottom)
}

/// Boundary resolution and gravity for one ball.
fn boundary_ball(b: &Ball, bd: &Boundary, vp: Option<(i64, i64)>, g: i64) -> (r: Ball)
    ensures
        r@ == boundary_ball_spec(b@, bd@, vp, g as int),
{
    match bd {
        Boundary::Unbounded => gravity_ball(b, g),
        Boundary::Viewport => match vp {
            Option::None => gravity_ball(b, g),
            Option::Some((w, h)) => {
                let pair = viewport_ball(b, w, h);
                if pair.1 {
                    pair.0
                } else {
                    gravity_ball(&pair.0, g)
                }
            },
        },
        Boundary::Rectangles(ws) => {
            let rb = resolve_rects(b, ws);
            gravity_ball(&rb, g)
        },
        Boundary::Hexagon(p) => {
            let hb = hex_resolve(b, p);
            gravity_ball(&hb, g)
        },
    }
}

/// Integration for one ball.
fn move_ball(b: &Ball) -> (r: Ball)
    ensures
        r@ == move_ball_spec(b@),
{
    if b.cir.ok() && -(VEL_LIMIT + GRAVITY_LIMIT) <= b.vel.x && b.vel.x <= VEL_LIMIT
        + GRAVITY_LIMIT && -(VEL_LIMIT + GRAVITY_LIMIT) <= b.vel.y && b.vel.y <= VEL_LIMIT
        + GRAVITY_LIMIT {
        Ball::new(b.cir.offset(b.vel), b.vel)
    } else {
        *b
    }
}

/// Moves every ball by its velocity.
pub fn ball_movement(balls: &mut Vec<Ball>)
    ensures
        views_of(final(balls)@) == views_of(old(balls)@).map_values(|b: BallM| move_ball_spec(b)),
{
    let ghost orig = views_of(balls@);
    let n = balls.len();
    let mut k: usize = 0;
    while k < n
        invariant
            balls@.len() == n,
            k <= n,
            orig.len() == n,
            forall|m: int| 0 <= m < k ==> #[trigger] views_of(balls@)[m] == move_ball_spec(orig[m]),
            forall|m: int| k <= m < n ==> #[trigger] views_of(balls@)[m] == orig[m],
        decreases n - k,
    {
        let b = balls[k];
        let nb = move_ball(&b);
        let ghost pre = views_of(balls@);
        balls.set(k, nb);
        proof {
            assert(pre[k as int] == orig[k as int]);
            assert(pre[k as int] == b@);
            assert(views_of(balls@) =~= pre.update(k as int, nb@));
            assert forall|m: int| 0 <= m < k + 1 implies #[trigger] views_of(balls@)[m]
                == move_ball_spec(orig[m]) by {
                if m < k {
                    assert(pre[m] == move_ball_spec(orig[m]));
                }
            }
            assert forall|m: int| k + 1 <= m < n implies #[trigger] views_of(balls@)[m]
                == orig[m] by {
                assert(pre[m] == orig[m]);
            }
        }
        k += 1;
    }
    proof {
        assert(views_of(balls@) =~= orig.map_values(|b: BallM| move_ball_spec(b)));
    }
}

/// Resolves every ball against the boundary and applies gravity to those
/// not resting on the viewport floor.
pub fn boundary_collisions(balls: &mut Vec<Ball>, bd: &Boundary, vp: Option<(i64, i64)>, g: i64)
    ensures
        views_of(final(balls)@) == views_of(old(balls)@).map_values(
            |b: BallM| boundary_ball_spec(b, bd@, vp, g as int),
        ),
{
    let ghost orig = views_of(balls@);
    let n = balls.len();
    let mut k: usize = 0;
    while k < n
        invariant
            balls@.len() == n,
            k <= n,
            orig.len() == n,
            forall|m: int|
                0 <= m < k ==> #[trigger] views_of(balls@)[m] == boundary_ball_spec(
                    orig[m],
                    bd@,
                    vp,
                    g as int,
                ),
            forall|m: int| k <= m < n ==> #[trigger] views_of(balls@)[m] == orig[m],
        decreases n - k,
    {
        let b = balls[k];
        let nb = boundary_ball(&b, bd, vp, g);
        let ghost pre = views_of(balls@);
        balls.set(k, nb);
        proof {
            assert(pre[k as int] == orig[k as int]);
            assert(pre[k as int] == b@);
            assert(views_of(balls@) =~= pre.update(k as int, nb@));
            assert forall|m: int| 0 <= m < k + 1 implies #[trigger] views_of(balls@)[m]
                == boundary_ball_spec(orig[m], bd@, vp, g as int) by {
                if m < k {
                    assert(pre[m] == boundary_ball_spec(orig[m], bd@, vp, g as int));
                }
            }
            assert forall|m: int| k + 1 <= m < n implies #[trigger] views_of(balls@)[m]
                == orig[m] by {
                assert(pre[m] == orig[m]);
            }
        }
        k += 1;
    }
    proof {
        assert(views_of(balls@) =~= orig.map_values(
            |b: BallM| boundary_ball_spec(b, bd@, vp, g as int),
        ));
    }
}

/// Mathematical value of a [`Simulation`].
pub ghost struct SimM {
    pub balls: Seq<BallM>,
    pub boundary: BoundaryM,
    pub gravity: int,
    pub rotation_rate: int,
}

/// The boundary after one frame: only the hexagon moves, turning rigidly
/// by the rotation rate.
pub open spec fn rotate_boundary_spec(bd: BoundaryM, steps: int) -> BoundaryM {
    match bd {
        BoundaryM::Hexagon(p) => BoundaryM::Hexagon(p.rotated(steps)),
        _ => bd,
    }
}

/// One full frame.
pub open spec fn step_spec(s: SimM, vp: Option<(i64, i64)>) -> SimM {
    let after_pairs = ball_collisions_spec(s.balls);
    let after_boundary = after_pairs.map_values(
        |b: BallM| boundary_ball_spec(b, s.boundary, vp, s.gravity),
    );
    let after_move = after_boundary.map_values(|b: BallM| move_ball_spec(b));
    SimM {
        balls: after_move,
        boundary: rotate_boundary_spec(s.boundary, s.rotation_rate),
        gravity: s.gravity,
        rotation_rate: s.rotation_rate,
    }
}

/// `n` frames from `s`.
pub open spec fn run_spec(s: SimM, vp: Option<(i64, i64)>, n: nat) -> SimM
    decreases n,
{
    if n == 0 {
        s
    } else {
        run_spec(step_spec(s, vp), vp, (n - 1) as nat)
    }
}

/// A set of balls moving inside one boundary.
#[derive(Clone, Debug, PartialEq, Eq)]
pub struct Simulation {
    pub balls: Vec<Ball>,
    pub boundary: Boundary,
    pub gravity: i64,
    pub rotation_rate: u32,
}

impl View for Simulation {
    type V = SimM;

    open spec fn view(&self) -> SimM {
        SimM {
            balls: views_of(self.balls@),
            boundary: self.boundary@,
            gravity: self.gravity as int,
            rotation_rate: self.rotation_rate as int,
        }
    }
}

impl Simulation {
    /// Builds a simulation from its initial balls, boundary and constants.
    pub fn new(balls: Vec<Ball>, boundary: Boundary, gravity: i64, rotation_rate: u32) -> (s:
        Simulation)
        ensures
            s@ == (SimM {
                balls: views_of(balls@),
                boundary: boundary@,
                gravity: gravity as int,
                rotation_rate: rotation_rate as int,
            }),
    {
        Simulation { balls, boundary, gravity, rotation_rate }
    }

    /// A read-only snapshot of the balls for a display layer: each ball's
    /// center and radius.
    pub fn snapshot(&self) -> (r: Vec<(Vec2, i64)>)
        ensures
            r@.len() == self.balls@.len(),
            forall|k: int|
                0 <= k < r@.len() ==> (#[trigger] r@[k]).0@ == views_of(self.balls@)[k].cir.center
                    && r@[k].1 == views_of(self.balls@)[k].cir.r,
    {
        let mut r: Vec<(Vec2, i64)> = Vec::new();
        let mut k: usize = 0;
        let n = self.balls.len();
        while k < n
            invariant
                k <= n,
                n == self.balls@.len(),
                r@.len() == k as int,
                forall|m: int|
                    0 <= m < k as int ==> (#[trigger] r@[m]).0@ == views_of(
                        self.balls@,
                    )[m].cir.center && r@[m].1 == views_of(self.balls@)[m].cir.r,
            decreases n - k,
        {
            let b = self.balls[k];
            r.push((b.cir.point(), b.cir.r));
            k += 1;
        }
        r
    }

    /// Advances the simulation by one frame. `viewport` is the screen size
    /// and is consulted only by the `Viewport` boundary.
    pub fn step(&mut self, viewport: Option<(i64, i64)>)
        ensures
            final(self)@ == step_spec(old(self)@, viewport),
    {
        ball_collisions(&mut self.balls);
        boundary_collisions(&mut self.balls, &self.boundary, viewport, self.gravity);
        ball_movement(&mut self.balls);
        let rot = self.rotation_rate;
        match &mut self.boundary {
            Boundary::Hexagon(p) => {
                p.rotate(rot);
            },
            _ => {},
        }
    }
}

proof fn lemma_resolve_rects_id(b: BallM, ws: Seq<RectM>, k: int)
    requires
        forall|m: int| 0 <= m < ws.len() ==> !(#[trigger] ws[m]).overlaps_circle(b.cir),
    ensures
        resolve_rects_spec(b, ws, k) == b,
    decreases ws.len() - k,
{
    if k < 0 || k >= ws.len() {
    } else {
        assert(resolve_rect_spec(b, ws[k]) == b);
        lemma_resolve_rects_id(b, ws, k + 1);
    }
}

/// Gravity accumulation: a lone ball with no boundary at all gains exactly
/// `gravity` of vertical velocity per frame, so after `n` frames its
/// vertical velocity has grown by `n * gravity` while its horizontal
/// velocity is untouched. The bounds keep every intermediate state within
/// the engine's working range.
pub proof fn lemma_gravity_accumulation(s: SimM, vp: Option<(i64, i64)>, n: nat)
    requires
        s.boundary == BoundaryM::Unbounded,
        s.balls.len() == 1,
        s.balls[0].ok(),
        -GRAVITY_LIMIT <= s.gravity <= GRAVITY_LIMIT,
        abs_spec(s.balls[0].vel.y) + n * abs_spec(s.gravity) <= VEL_LIMIT,
        abs_spec(s.balls[0].cir.center.x) + n * abs_spec(s.balls[0].vel.x) <= COORD_LIMIT,
        abs_spec(s.balls[0].cir.center.y) + n * (VEL_LIMIT as int) <= COORD_LIMIT,
    ensures
        run_spec(s, vp, n).balls.len() == 1,
        run_spec(s, vp, n).balls[0].vel.y == s.balls[0].vel.y + n * s.gravity,
        run_spec(s, vp, n).balls[0].vel.x == s.balls[0].vel.x,
    decreases n,
{
    if n == 0 {
        assert(run_spec(s, vp, 0).balls[0].vel.y == s.balls[0].vel.y + 0 * s.gravity)
            by (nonlinear_arith);
    } else {
        let b = s.balls[0];
        let g = s.gravity;
        crate::collision::lemma_ball_collisions_single(s.balls);
        let s1 = step_spec(s, vp);
        let bg = gravity_spec(b, g);
        assert(s1.balls[0] == move_ball_spec(bg));
        assert(bg.vel.y == b.vel.y + g);
        assert(n * abs_spec(g) >= 1 * abs_spec(g)) by (nonlinear_arith)
            requires
                n >= 1,
                abs_spec(g) >= 0,
            ;
        assert(n * (VEL_LIMIT as int) >= 1 * (VEL_LIMIT as int)) by (nonlinear_arith)
            requires
                n >= 1,
            ;
        assert(n * abs_spec(b.vel.x) >= 1 * abs_spec(b.vel.x)) by (nonlinear_arith)
            requires
                n >= 1,
                abs_spec(b.vel.x) >= 0,
            ;
        let b1 = s1.balls[0];
        assert(b1.cir.r == b.cir.r);
        assert(b1.vel.x == b.vel.x);
        assert(b1.vel.y == b.vel.y + g);
        assert(b1.ok());
        assert((n - 1) * abs_spec(g) == n * abs_spec(g) - 1 * abs_spec(g)) by (nonlinear_arith);
        assert((n - 1) * (VEL_LIMIT as int) == n * (VEL_LIMIT as int) - 1 * (VEL_LIMIT as int))
            by (nonlinear_arith);
        assert((n - 1) * abs_spec(b.vel.x) == n * abs_spec(b.vel.x) - 1 * abs_spec(b.vel.x))
            by (nonlinear_arith);
        lemma_gravity_accumulation(s1, vp, (n - 1) as nat);
        assert(run_spec(s, vp, n) == run_spec(s1, vp, (n - 1) as nat));
        assert((b.vel.y + g) + (n - 1) * g == b.vel.y + n * g) by (nonlinear_arith);
    }
}

/// Idempotence at rest: with gravity zero, every velocity zero, no two
/// balls overlapping and every ball clear of its boundary, a step leaves
/// every ball exactly where it was (the hexagon may still rotate).
pub proof fn lemma_rest_state_fixed(s: SimM, vp: Option<(i64, i64)>)
    requires
        s.gravity == 0,
        forall|i: int| 0 <= i < s.balls.len() ==> (#[trigger] s.balls[i]).ok(),
        forall|i: int|
            0 <= i < s.balls.len() ==> (#[trigger] s.balls[i]).vel == (Vec2M { x: 0, y: 0 }),
        crate::collision::no_overlaps(s.balls),
        match s.boundary {
            BoundaryM::Rectangles(ws) => forall|i: int, k: int|
                0 <= i < s.balls.len() && 0 <= k < ws.len() ==> !(#[trigger] ws[k]).overlaps_circle(
                    (#[trigger] s.balls[i]).cir,
                ),
            BoundaryM::Hexagon(p) => p.ok() && forall|i: int|
                0 <= i < s.balls.len() ==> (#[trigger] s.balls[i]).cir.center.sub(
                    p.center,
                ).norm_sq() <= p.circumradius * p.circumradius,
            _ => true,
        },
    ensures
        step_spec(s, vp).balls == s.balls,
{
    crate::collision::lemma_ball_collisions_id(s.balls);
    let after_boundary = s.balls.map_values(
        |b: BallM| boundary_ball_spec(b, s.boundary, vp, s.gravity),
    );
    assert forall|i: int| 0 <= i < s.balls.len() implies #[trigger] after_boundary[i]
        == s.balls[i] by {
        let b = s.balls[i];
        assert(gravity_spec(b, 0) == b);
        match s.boundary {
            BoundaryM::Unbounded => {},
            BoundaryM::Viewport => {
                match vp {
                    Option::None => {},
                    Option::Some((w, h)) => {
                        crate::num::lemma_div_trunc_nonneg(0, SCALE as int);
                        crate::num::lemma_div_trunc_le(0, SCALE as int);
                        crate::num::lemma_div_trunc_nonneg(0, FLOOR_DRAG_DEN as int);
                        crate::num::lemma_div_trunc_le(0, FLOOR_DRAG_DEN as int);
                        let r = viewport_resolve_spec(b, w as int, h as int);
                        assert(r.0 == b);
                    },
                }
            },
            BoundaryM::Rectangles(ws) => {
                lemma_resolve_rects_id(b, ws, 0);
            },
            BoundaryM::Hexagon(p) => {
                assert(hex_resolve_spec(b, p) == b);
            },
        }
    }
    assert(after_boundary =~= s.balls);
    let after_move = after_boundary.map_values(|b: BallM| move_ball_spec(b));
    assert forall|i: int| 0 <= i < s.balls.len() implies #[trigger] after_move[i]
        == s.balls[i] by {
        let b = s.balls[i];
        assert(b.cir.offset(b.vel) == b.cir);
        assert(move_ball_spec(b) == b);
    }
    assert(after_move =~= s.balls);
}

/// Determinism: a simulation state and a fixed viewport admit exactly one
/// trajectory; equal initial states driven the same number of frames end
/// equal.
pub proof fn lemma_determinism(s1: SimM, s2: SimM, vp: Option<(i64, i64)>, n: nat)
    requires
        s1.balls == s2.balls,
        s1.boundary == s2.boundary,
        s1.gravity == s2.gravity,
        s1.rotation_rate == s2.rotation_rate,
    ensures
        run_spec(s1, vp, n) == run_spec(s2, vp, n),
{
    assert(s1 == s2);
}

} // verus!
