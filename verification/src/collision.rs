//! Ball-ball collision detection and resolution.
//!
//! Every unordered pair is visited in ascending index order, in a single
//! pass. An overlapping pair is pushed apart along the line joining the
//! centers and, because all balls share the same unit mass, the velocity
//! components parallel to that line are exchanged while the perpendicular
//! components are kept.
//!
//! Dense clusters may need several frames to separate fully: a pair
//! resolved early in the pass can be pushed back into overlap by a later
//! pair. Each individual resolution, however, leaves its own two balls
//! separated (`lemma_resolution_separates`).

use vstd::prelude::*;
use crate::num::{
    abs_spec, div_trunc_spec, div_trunc, lemma_abs_mul, lemma_cauchy_schwarz,
    lemma_div_trunc_close, lemma_div_trunc_le, lemma_div_trunc_nonneg, lemma_mul_bound,
    lemma_mul_cancel,
    lemma_mul_comm, lemma_mul_le_mono_left, lemma_mul_le_mono_right, lemma_sq_le, lemma_sq_lt,
    lemma_sq_nonneg, COORD_LIMIT, RADIUS_LIMIT, SCALE, SEP_EPS, VEL_LIMIT,
};
use crate::vec2::{Vec2, Vec2M};
use crate::circle::{Circle, CircleM};
use crate::ball::{Ball, BallM};

verus! {

/// The projection of `v` onto the line spanned by `d`, rounded toward zero
/// in fixed-point.
pub open spec fn project_spec(v: Vec2M, d: Vec2M) -> Vec2M {
    d.scale_div(v.dot(d), d.norm_sq())
}

/// The direction used to resolve a pair: the line joining the centers, or
/// the x axis when the centers coincide.
pub open spec fn collision_dir(a: BallM, b: BallM) -> Vec2M {
    let d = b.cir.center.sub(a.cir.center);
    if d.norm_sq() == 0 {
        Vec2M { x: 1, y: 0 }
    } else {
        d
    }
}

/// Equal-mass elastic exchange: each ball keeps its velocity component
/// perpendicular to `d` and takes the other's parallel component.
pub open spec fn swapped_vels(va: Vec2M, vb: Vec2M, d: Vec2M) -> (Vec2M, Vec2M) {
    let pa = project_spec(va, d);
    let pb = project_spec(vb, d);
    (pb.add(va.sub(pa)), pa.add(vb.sub(pb)))
}

/// Where the two centers of an overlapping pair end up: each is shifted by
/// half the penetration depth (plus `SEP_EPS`) away from the other along
/// the collision normal, an equal and opposite split. If rounding were
/// ever to leave the pair still touching, the pair is instead split
/// symmetrically about the midpoint of the two centers along the x axis,
/// so the result is separated on every input and the split stays equal to
/// within the truncation of the two halvings.
pub open spec fn separated_centers(a: BallM, b: BallM) -> (Vec2M, Vec2M) {
    let d = b.cir.center.sub(a.cir.center);
    let dd = d.norm_sq();
    let len = d.len();
    let n = if dd == 0 {
        Vec2M { x: SCALE as int, y: 0 }
    } else {
        d.scale_div(SCALE as int, len)
    };
    let overlap = a.cir.r + b.cir.r - len + SEP_EPS;
    let shift = n.scale_div(div_trunc_spec(overlap, 2), SCALE as int);
    let ca = a.cir.center.sub(shift);
    let cb = b.cir.center.add(shift);
    if cb.sub(ca).norm_sq() <= (a.cir.r + b.cir.r) * (a.cir.r + b.cir.r) {
        let mx = div_trunc_spec(a.cir.center.x + b.cir.center.x, 2);
        let my = div_trunc_spec(a.cir.center.y + b.cir.center.y, 2);
        let h = div_trunc_spec(a.cir.r + b.cir.r + SEP_EPS, 2);
        (
            Vec2M { x: mx - h, y: my },
            Vec2M { x: mx - h + a.cir.r + b.cir.r + SEP_EPS, y: my },
        )
    } else {
        (ca, cb)
    }
}

/// One pair resolution. A pair out of the engine's working range, or not
/// overlapping, is left untouched.
pub open spec fn resolve_ball_ball_spec(a: BallM, b: BallM) -> (BallM, BallM) {
    if !(a.ok() && b.ok()) || !a.cir.overlaps(b.cir) {
        (a, b)
    } else {
        let centers = separated_centers(a, b);
        let vels = swapped_vels(a.vel, b.vel, collision_dir(a, b));
        (
            BallM { cir: CircleM { center: centers.0, r: a.cir.r }, vel: vels.0 },
            BallM { cir: CircleM { center: centers.1, r: b.cir.r }, vel: vels.1 },
        )
    }
}

/// The fixed-point projection of a bounded velocity onto `d` has components
/// bounded by twice the velocity bound.
proof fn lemma_project_bound(v: Vec2M, d: Vec2M, vl: int)
    requires
        0 <= vl,
        abs_spec(v.x) <= vl,
        abs_spec(v.y) <= vl,
        1 <= d.norm_sq(),
    ensures
        abs_spec(d.x) * abs_spec(v.dot(d)) <= d.norm_sq() * (2 * vl),
        abs_spec(d.y) * abs_spec(v.dot(d)) <= d.norm_sq() * (2 * vl),
{
    let k = v.dot(d);
    let dd = d.norm_sq();
    lemma_cauchy_schwarz(v.x, v.y, d.x, d.y);
    lemma_mul_bound(v.x, v.x, vl, vl);
    lemma_mul_bound(v.y, v.y, vl, vl);
    lemma_mul_le_mono_right(v.x * v.x + v.y * v.y, 2 * (vl * vl), dd);
    lemma_sq_nonneg(d.x);
    lemma_sq_nonneg(d.y);
    lemma_sq_nonneg(vl);
    assert(dd * (2 * vl) >= 0) by (nonlinear_arith)
        requires
            dd >= 1,
            vl >= 0,
        ;
    assert((2 * (vl * vl)) * dd >= 0) by (nonlinear_arith)
        requires
            dd >= 1,
            vl * vl >= 0,
        ;
    assert((k * d.x) * (k * d.x) == (k * k) * (d.x * d.x)) by (nonlinear_arith);
    assert((k * d.y) * (k * d.y) == (k * k) * (d.y * d.y)) by (nonlinear_arith);
    lemma_mul_le_mono_right(k * k, 2 * (vl * vl) * dd, d.x * d.x);
    lemma_mul_le_mono_right(k * k, 2 * (vl * vl) * dd, d.y * d.y);
    lemma_mul_le_mono_left(2 * (vl * vl) * dd, d.x * d.x, dd);
    lemma_mul_le_mono_left(2 * (vl * vl) * dd, d.y * d.y, dd);
    assert((2 * (vl * vl) * dd) * dd <= (dd * (2 * vl)) * (dd * (2 * vl))) by (nonlinear_arith)
        requires
            vl >= 0,
            dd >= 1,
        ;
    lemma_sq_le(k * d.x, dd * (2 * vl));
    lemma_sq_le(k * d.y, dd * (2 * vl));
    lemma_abs_mul(k, d.x);
    lemma_abs_mul(k, d.y);
    lemma_mul_comm(abs_spec(k), abs_spec(d.x));
    lemma_mul_comm(abs_spec(k), abs_spec(d.y));
}

/// The fixed-point projection of `v` onto the line spanned by `d`.
fn project(v: Vec2, d: Vec2) -> (r: Vec2)
    requires
        v@.norm_max() <= VEL_LIMIT,
        1 <= d@.norm_sq(),
        d@.norm_max() <= 0x4000_0000,
    ensures
        r@ == project_spec(v@, d@),
        abs_spec(r@.x) <= 2 * VEL_LIMIT,
        abs_spec(r@.y) <= 2 * VEL_LIMIT,
{
    let k = v.dot(d);
    let dd = d.norm_sq();
    proof {
        lemma_mul_bound(v@.x, d@.x, VEL_LIMIT as int, 0x4000_0000);
        lemma_mul_bound(v@.y, d@.y, VEL_LIMIT as int, 0x4000_0000);
        lemma_project_bound(v@, d@, VEL_LIMIT as int);
        lemma_mul_le_mono_left(d@.norm_sq(), 2 * VEL_LIMIT, 0x4000_0000_0000_0000);
        lemma_mul_comm(d@.norm_sq(), 0x4000_0000_0000_0000);
        lemma_mul_comm(abs_spec(d@.norm_sq()), 0x4000_0000_0000_0000);
    }
    let r = d.scale_div(k, dd);
    proof {
        lemma_mul_comm(d@.norm_sq(), 2 * VEL_LIMIT);
        lemma_mul_cancel(abs_spec(r@.x), 2 * VEL_LIMIT, d@.norm_sq());
        lemma_mul_cancel(abs_spec(r@.y), 2 * VEL_LIMIT, d@.norm_sq());
    }
    r
}

/// Resolves one pair of balls, returning the updated pair. The pair is
/// returned unchanged unless both balls are in the engine's working range
/// and their circles overlap.
pub fn resolve_ball_ball(a: &Ball, b: &Ball) -> (r: (Ball, Ball))
    ensures
        r.0@ == resolve_ball_ball_spec(a@, b@).0,
        r.1@ == resolve_ball_ball_spec(a@, b@).1,
{
    if !(a.ok() && b.ok()) {
        return (*a, *b);
    }
    if !a.cir.overlaps(&b.cir) {
        return (*a, *b);
    }
    let d = b.cir.point().sub(a.cir.point());
    let dd = d.norm_sq();
    let len = d.length();
    let sum = a.cir.r + b.cir.r;
    proof {
        lemma_sq_le(len as int, sum as int);
    }
    let n: Vec2 = if dd == 0 {
        Vec2::new(SCALE, 0)
    } else {
        proof {
            lemma_sq_nonneg(d@.x);
            lemma_sq_nonneg(d@.y);
            assert(len as int >= 1) by (nonlinear_arith)
                requires
                    dd as int >= 1,
                    (dd as int) < (len as int + 1) * (len as int + 1),
                    len as int >= 0,
                ;
            lemma_sq_lt(d@.x, len as int + 1);
            lemma_sq_lt(d@.y, len as int + 1);
            assert(abs_spec(d@.x) * abs_spec(SCALE as int) <= abs_spec(len as int)
                * 0x4000_0000_0000_0000) by (nonlinear_arith)
                requires
                    abs_spec(d@.x) <= len as int,
                    len as int >= 1,
                    abs_spec(SCALE as int) == SCALE,
                    abs_spec(len as int) == len as int,
                    SCALE == 100_000,
                ;
            assert(abs_spec(d@.y) * abs_spec(SCALE as int) <= abs_spec(len as int)
                * 0x4000_0000_0000_0000) by (nonlinear_arith)
                requires
                    abs_spec(d@.y) <= len as int,
                    len as int >= 1,
                    abs_spec(SCALE as int) == SCALE,
                    abs_spec(len as int) == len as int,
                    SCALE == 100_000,
                ;
        }
        let nn = d.scale_div(SCALE, len);
        proof {
            assert(abs_spec(d@.x) * abs_spec(SCALE as int) <= (SCALE as int) * (len as int))
                by (nonlinear_arith)
                requires
                    abs_spec(d@.x) <= len as int,
                    abs_spec(SCALE as int) == SCALE as int,
                    SCALE as int >= 0,
                    len as int >= 0,
                ;
            assert(abs_spec(d@.y) * abs_spec(SCALE as int) <= (SCALE as int) * (len as int))
                by (nonlinear_arith)
                requires
                    abs_spec(d@.y) <= len as int,
                    abs_spec(SCALE as int) == SCALE as int,
                    SCALE as int >= 0,
                    len as int >= 0,
                ;
            lemma_mul_comm(SCALE as int, len as int);
            lemma_mul_cancel(abs_spec(nn@.x), SCALE as int, len as int);
            lemma_mul_cancel(abs_spec(nn@.y), SCALE as int, len as int);
        }
        nn
    };
    let overlap_amt = sum - len + SEP_EPS;
    let half = div_trunc(overlap_amt, 2);
    proof {
        lemma_div_trunc_nonneg(overlap_amt as int, 2);
        lemma_div_trunc_le(overlap_amt as int, 2);
        assert(abs_spec(n@.x) * abs_spec(half as int) <= abs_spec(SCALE as int)
            * 0x4000_0000_0000_0000) by (nonlinear_arith)
            requires
                abs_spec(n@.x) <= SCALE as int,
                0 <= half as int <= 0x4000_0000,
                abs_spec(half as int) == half as int,
                abs_spec(SCALE as int) == SCALE as int,
                SCALE == 100_000,
            ;
        assert(abs_spec(n@.y) * abs_spec(half as int) <= abs_spec(SCALE as int)
            * 0x4000_0000_0000_0000) by (nonlinear_arith)
            requires
                abs_spec(n@.y) <= SCALE as int,
                0 <= half as int <= 0x4000_0000,
                abs_spec(half as int) == half as int,
                abs_spec(SCALE as int) == SCALE as int,
                SCALE == 100_000,
            ;
    }
    let shift = n.scale_div(half, SCALE);
    proof {
        assert(abs_spec(n@.x) * abs_spec(half as int) <= (half as int) * (SCALE as int))
            by (nonlinear_arith)
            requires
                abs_spec(n@.x) <= SCALE as int,
                abs_spec(half as int) == half as int,
                half as int >= 0,
                SCALE as int >= 0,
            ;
        assert(abs_spec(n@.y) * abs_spec(half as int) <= (half as int) * (SCALE as int))
            by (nonlinear_arith)
            requires
                abs_spec(n@.y) <= SCALE as int,
                abs_spec(half as int) == half as int,
                half as int >= 0,
                SCALE as int >= 0,
            ;
        lemma_mul_cancel(abs_spec(shift@.x), half as int, SCALE as int);
        lemma_mul_cancel(abs_spec(shift@.y), half as int, SCALE as int);
    }
    let ca = a.cir.point().sub(shift);
    let cb = b.cir.point().add(shift);
    let dsep = cb.sub(ca);
    proof {
        lemma_mul_bound(sum as int, sum as int, 2 * RADIUS_LIMIT, 2 * RADIUS_LIMIT);
    }
    let still_touching = dsep.norm_sq() <= sum * sum;
    let (ca2, cb2) = if still_touching {
        let mx = div_trunc(a.cir.x + b.cir.x, 2);
        let my = div_trunc(a.cir.y + b.cir.y, 2);
        let h = div_trunc(sum + SEP_EPS, 2);
        (Vec2::new(mx - h, my), Vec2::new(mx - h + sum + SEP_EPS, my))
    } else {
        (ca, cb)
    };
    let dir = if dd == 0 {
        Vec2::new(1, 0)
    } else {
        d
    };
    let pa = project(a.vel, dir);
    let pb = project(b.vel, dir);
    let va = pb.add(a.vel.sub(pa));
    let vb = pa.add(b.vel.sub(pb));
    let ra = Ball::new(Circle::new(ca2.x, ca2.y, a.cir.r), va);
    let rb = Ball::new(Circle::new(cb2.x, cb2.y, b.cir.r), vb);
    proof {
        assert(ra@ == resolve_ball_ball_spec(a@, b@).0);
        assert(rb@ == resolve_ball_ball_spec(a@, b@).1);
    }
    (ra, rb)
}

/// The models of a sequence of balls.
pub open spec fn views_of(s: Seq<Ball>) -> Seq<BallM> {
    s.map_values(|b: Ball| b@)
}

/// One pair applied inside a sequence. Out-of-range indices leave the
/// sequence unchanged.
pub open spec fn apply_pair(s: Seq<BallM>, i: int, j: int) -> Seq<BallM> {
    if 0 <= i < j < s.len() {
        let r = resolve_ball_ball_spec(s[i], s[j]);
        s.update(i, r.0).update(j, r.1)
    } else {
        s
    }
}

/// The inner loop of the pass: pairs `(i, j)`, `(i, j + 1)`, ... in order.
pub open spec fn run_inner(s: Seq<BallM>, n: int, i: int, j: int) -> Seq<BallM>
    decreases n - j,
{
    if j >= n {
        s
    } else {
        run_inner(apply_pair(s, i, j), n, i, j + 1)
    }
}

/// The outer loop of the pass: every unordered pair in ascending index
/// order.
pub open spec fn run_outer(s: Seq<BallM>, n: int, i: int) -> Seq<BallM>
    decreases n - i,
{
    if i >= n {
        s
    } else {
        run_outer(run_inner(s, n, i, i + 1), n, i + 1)
    }
}

/// One single pass over all unordered pairs.
pub open spec fn ball_collisions_spec(s: Seq<BallM>) -> Seq<BallM> {
    run_outer(s, s.len() as int, 0)
}

/// No two distinct balls in the sequence overlap.
pub open spec fn no_overlaps(s: Seq<BallM>) -> bool {
    forall|i: int, j: int|
        0 <= i < j < s.len() ==> !#[trigger] s[i].cir.overlaps(#[trigger] s[j].cir)
}

proof fn lemma_run_inner_id(s: Seq<BallM>, n: int, i: int, j: int)
    requires
        no_overlaps(s),
        n == s.len(),
        0 <= i < j,
    ensures
        run_inner(s, n, i, j) == s,
    decreases n - j,
{
    if j >= n {
    } else {
        assert(apply_pair(s, i, j) =~= s);
        lemma_run_inner_id(s, n, i, j + 1);
    }
}

proof fn lemma_run_outer_id(s: Seq<BallM>, n: int, i: int)
    requires
        no_overlaps(s),
        n == s.len(),
        0 <= i,
    ensures
        run_outer(s, n, i) == s,
    decreases n - i,
{
    if i >= n {
    } else {
        lemma_run_inner_id(s, n, i, i + 1);
        lemma_run_outer_id(s, n, i + 1);
    }
}

/// When no two balls overlap, the collision pass changes nothing.
pub proof fn lemma_ball_collisions_id(s: Seq<BallM>)
    requires
        no_overlaps(s),
    ensures
        ball_collisions_spec(s) == s,
{
    lemma_run_outer_id(s, s.len() as int, 0);
}

/// A single ball has no pairs: the pass changes nothing.
pub proof fn lemma_ball_collisions_single(s: Seq<BallM>)
    requires
        s.len() == 1,
    ensures
        ball_collisions_spec(s) == s,
{
    assert(run_inner(s, 1, 0, 1) == s);
    assert(run_outer(s, 1, 1) == s);
}

/// Resolves every unordered pair of balls once, in ascending index order.
pub fn ball_collisions(balls: &mut Vec<Ball>)
    ensures
        views_of(final(balls)@) == ball_collisions_spec(views_of(old(balls)@)),
        final(balls)@.len() == old(balls)@.len(),
{
    let ghost orig = views_of(balls@);
    let n = balls.len();
    let ghost ni = n as int;
    let mut i: usize = 0;
    while i < n
        invariant
            balls@.len() == n,
            ni == n as int,
            i <= n,
            orig.len() == ni,
            run_outer(views_of(balls@), ni, i as int) == run_outer(orig, ni, 0),
        decreases n - i,
    {
        let mut j: usize = i + 1;
        while j < n
            invariant
                balls@.len() == n,
                ni == n as int,
                i < n,
                i < j <= n,
                orig.len() == ni,
                run_outer(run_inner(views_of(balls@), ni, i as int, j as int), ni, i as int + 1)
                    == run_outer(orig, ni, 0),
            decreases n - j,
        {
            let ba = balls[i];
            let bb = balls[j];
            let pair = resolve_ball_ball(&ba, &bb);
            let ghost pre = views_of(balls@);
            balls.set(i, pair.0);
            balls.set(j, pair.1);
            proof {
                assert(views_of(balls@) =~= apply_pair(pre, i as int, j as int));
            }
            j += 1;
        }
        i += 1;
    }
}
/// centers are strictly further apart than the sum of the radii, so the
/// distance is at least `r_a + r_b` minus any tolerance.
pub proof fn lemma_resolution_separates(a: BallM, b: BallM)
    requires
        a.ok(),
        b.ok(),
        a.cir.overlaps(b.cir),
    ensures
        ({
            let r = resolve_ball_ball_spec(a, b);
            let dnew = r.1.cir.center.sub(r.0.cir.center);
            &&& dnew.norm_sq() > (a.cir.r + b.cir.r) * (a.cir.r + b.cir.r)
            &&& r.0.cir.r == a.cir.r
            &&& r.1.cir.r == b.cir.r
        }),
{
    let centers = separated_centers(a, b);
    let sum = a.cir.r + b.cir.r;
    let d = b.cir.center.sub(a.cir.center);
    let dd = d.norm_sq();
    let len = d.len();
    let n = if dd == 0 {
        Vec2M { x: SCALE as int, y: 0 }
    } else {
        d.scale_div(SCALE as int, len)
    };
    let overlap = a.cir.r + b.cir.r - len + SEP_EPS;
    let shift = n.scale_div(div_trunc_spec(overlap, 2), SCALE as int);
    let ca = a.cir.center.sub(shift);
    let cb = b.cir.center.add(shift);
    if cb.sub(ca).norm_sq() <= sum * sum {
        assert(centers.1.sub(centers.0) == (Vec2M { x: sum + SEP_EPS, y: 0 }));
        assert((sum + SEP_EPS) * (sum + SEP_EPS) + 0 * 0 > sum * sum) by (nonlinear_arith)
            requires
                sum >= 0,
                SEP_EPS == 100,
            ;
        crate::num::lemma_div_trunc_half(a.cir.center.x + b.cir.center.x);
        crate::num::lemma_div_trunc_half(a.cir.center.y + b.cir.center.y);
        crate::num::lemma_div_trunc_half(sum + SEP_EPS);
    }
}

/// Total kinetic energy is unchanged by the exact equal-mass elastic
/// exchange along any nonzero direction `d`.
///
/// The exact exchange moves `va` to `va + ((kb - ka) / dd) * d` and `vb`
/// symmetrically; to stay within the integers, both sides of the equation
/// are scaled by `dd = |d|^2`. `lemma_swap_rounding_bound` shows that the
/// implemented exchange differs from this exact one by less than two
/// sub-units (2/SCALE of a unit) per velocity component, so the kinetic
/// energy of the implemented exchange differs from the conserved value
/// only by that rounding.
#[verifier::rlimit(60)]
pub proof fn lemma_elastic_energy_conserved(va: Vec2M, vb: Vec2M, d: Vec2M)
    requires
        d.norm_sq() >= 1,
    ensures
        ({
            let dd = d.norm_sq();
            let t = vb.dot(d) - va.dot(d);
            let nax = dd * va.x + t * d.x;
            let nay = dd * va.y + t * d.y;
            let nbx = dd * vb.x - t * d.x;
            let nby = dd * vb.y - t * d.y;
            nax * nax + nay * nay + nbx * nbx + nby * nby == (dd * dd) * (va.norm_sq()
                + vb.norm_sq())
        }),
{
    let dd = d.norm_sq();
    let ka = va.dot(d);
    let kb = vb.dot(d);
    let t = kb - ka;
    let nax = dd * va.x + t * d.x;
    let nay = dd * va.y + t * d.y;
    let nbx = dd * vb.x - t * d.x;
    let nby = dd * vb.y - t * d.y;
    assert(nax * nax == (dd * va.x) * (dd * va.x) + 2 * ((dd * va.x) * (t * d.x)) + (t * d.x) * (t
        * d.x)) by (nonlinear_arith)
        requires
            nax == dd * va.x + t * d.x,
        ;
    assert((dd * va.x) * (dd * va.x) == (dd * dd) * (va.x * va.x)) by (nonlinear_arith);
    assert((dd * va.x) * (t * d.x) == (dd * t) * (va.x * d.x)) by (nonlinear_arith);
    assert(nay * nay == (dd * va.y) * (dd * va.y) + 2 * ((dd * va.y) * (t * d.y)) + (t * d.y) * (t
        * d.y)) by (nonlinear_arith)
        requires
            nay == dd * va.y + t * d.y,
        ;
    assert((dd * va.y) * (dd * va.y) == (dd * dd) * (va.y * va.y)) by (nonlinear_arith);
    assert((dd * va.y) * (t * d.y) == (dd * t) * (va.y * d.y)) by (nonlinear_arith);
    assert((t * d.x) * (t * d.x) == (t * t) * (d.x * d.x)) by (nonlinear_arith);
    assert((t * d.y) * (t * d.y) == (t * t) * (d.y * d.y)) by (nonlinear_arith);
    assert(nbx * nbx == (dd * vb.x) * (dd * vb.x) - 2 * ((dd * vb.x) * (t * d.x)) + (t * d.x) * (t
        * d.x)) by (nonlinear_arith)
        requires
            nbx == dd * vb.x - t * d.x,
        ;
    assert((dd * vb.x) * (dd * vb.x) == (dd * dd) * (vb.x * vb.x)) by (nonlinear_arith);
    assert((dd * vb.x) * (t * d.x) == (dd * t) * (vb.x * d.x)) by (nonlinear_arith);
    assert((t * d.x) * (t * d.x) == (t * t) * (d.x * d.x)) by (nonlinear_arith);
    assert(nby * nby == (dd * vb.y) * (dd * vb.y) - 2 * ((dd * vb.y) * (t * d.y)) + (t * d.y) * (t
        * d.y)) by (nonlinear_arith)
        requires
            nby == dd * vb.y - t * d.y,
        ;
    assert((dd * vb.y) * (dd * vb.y) == (dd * dd) * (vb.y * vb.y)) by (nonlinear_arith);
    assert((dd * vb.y) * (t * d.y) == (dd * t) * (vb.y * d.y)) by (nonlinear_arith);
    assert((t * d.y) * (t * d.y) == (t * t) * (d.y * d.y)) by (nonlinear_arith);
    assert((dd * t) * (va.x * d.x) + (dd * t) * (va.y * d.y) == (dd * t) * ka) by (nonlinear_arith)
        requires
            ka == va.x * d.x + va.y * d.y,
        ;
    assert((dd * t) * (vb.x * d.x) + (dd * t) * (vb.y * d.y) == (dd * t) * kb) by (nonlinear_arith)
        requires
            kb == vb.x * d.x + vb.y * d.y,
        ;
    assert((t * t) * (d.x * d.x) + (t * t) * (d.y * d.y) == (t * t) * dd) by (nonlinear_arith)
        requires
            dd == d.x * d.x + d.y * d.y,
        ;
    assert((dd * dd) * (va.x * va.x) + (dd * dd) * (va.y * va.y) == (dd * dd) * va.norm_sq())
        by (nonlinear_arith)
        requires
            va.norm_sq() == va.x * va.x + va.y * va.y,
        ;
    assert((dd * dd) * (vb.x * vb.x) + (dd * dd) * (vb.y * vb.y) == (dd * dd) * vb.norm_sq())
        by (nonlinear_arith)
        requires
            vb.norm_sq() == vb.x * vb.x + vb.y * vb.y,
        ;
    assert(2 * ((dd * t) * ka) - 2 * ((dd * t) * kb) + 2 * ((t * t) * dd) == 0)
        by (nonlinear_arith)
        requires
            t == kb - ka,
        ;
    assert((dd * dd) * (va.norm_sq() + vb.norm_sq()) == (dd * dd) * va.norm_sq() + (dd * dd)
        * vb.norm_sq()) by (nonlinear_arith);
}

/// The implemented exchange tracks the exact energy-conserving one: after
/// scaling by `dd = |d|^2`, each resolved velocity component lies within
/// two sub-units of the exact exchange of `lemma_elastic_energy_conserved`
/// (one truncating division per projection).
pub proof fn lemma_swap_rounding_bound(va: Vec2M, vb: Vec2M, d: Vec2M)
    requires
        d.norm_sq() >= 1,
    ensures
        ({
            let dd = d.norm_sq();
            let t = vb.dot(d) - va.dot(d);
            let v = swapped_vels(va, vb, d);
            &&& abs_spec(v.0.x * dd - (dd * va.x + t * d.x)) < 2 * dd
            &&& abs_spec(v.0.y * dd - (dd * va.y + t * d.y)) < 2 * dd
            &&& abs_spec(v.1.x * dd - (dd * vb.x - t * d.x)) < 2 * dd
            &&& abs_spec(v.1.y * dd - (dd * vb.y - t * d.y)) < 2 * dd
        }),
{
    let dd = d.norm_sq();
    let ka = va.dot(d);
    let kb = vb.dot(d);
    let v = swapped_vels(va, vb, d);
    let pa = project_spec(va, d);
    let pb = project_spec(vb, d);
    lemma_div_trunc_close(d.x * ka, dd);
    lemma_div_trunc_close(d.y * ka, dd);
    lemma_div_trunc_close(d.x * kb, dd);
    lemma_div_trunc_close(d.y * kb, dd);
    assert((kb - ka) * d.x == d.x * kb - d.x * ka) by (nonlinear_arith);
    assert((kb - ka) * d.y == d.y * kb - d.y * ka) by (nonlinear_arith);
    assert(v.0.x * dd == pb.x * dd + va.x * dd - pa.x * dd) by (nonlinear_arith)
        requires
            v.0.x == pb.x + va.x - pa.x,
        ;
    assert(v.0.y * dd == pb.y * dd + va.y * dd - pa.y * dd) by (nonlinear_arith)
        requires
            v.0.y == pb.y + va.y - pa.y,
        ;
    assert(v.1.x * dd == pa.x * dd + vb.x * dd - pb.x * dd) by (nonlinear_arith)
        requires
            v.1.x == pa.x + vb.x - pb.x,
        ;
    assert(v.1.y * dd == pa.y * dd + vb.y * dd - pb.y * dd) by (nonlinear_arith)
        requires
            v.1.y == pa.y + vb.y - pb.y,
        ;
    lemma_mul_comm(va.x, dd);
    lemma_mul_comm(va.y, dd);
    lemma_mul_comm(vb.x, dd);
    lemma_mul_comm(vb.y, dd);
}

} // verus!
