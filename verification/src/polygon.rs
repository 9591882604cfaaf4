//! The rotating regular hexagon boundary.
//!
//! The hexagon is stored in polar form: a center, a circumradius, and an
//! orientation measured in angle units of 1/1200 of a turn. The six
//! vertices sit at the orientation plus multiples of `VERTEX_STEP`, all at
//! exactly the circumradius from the center, so a rotation is rigid by
//! construction. The per-frame rotation of one four-hundredth of a turn is
//! `ROTATION_STEP` angle units.
//!
//! Containment uses the circumscribed circle: a ball whose center leaves
//! the circle of radius `circumradius` is clamped back onto it and its
//! velocity is reversed with a damping factor of 0.9.

use vstd::prelude::*;
use vstd::arithmetic::div_mod::{lemma_add_mod_noop_right, lemma_mod_bound};
use crate::num::{
    abs_spec, lemma_mul_bound, lemma_mul_cancel, lemma_mul_comm, lemma_mul_le_mono_left,
    lemma_mul_le_mono_right, lemma_sq_lt, lemma_sq_nonneg, COORD_LIMIT, RADIUS_LIMIT, SCALE,
    VEL_LIMIT,
};
use crate::vec2::{Vec2, Vec2M};
use crate::circle::CircleM;
use crate::ball::{Ball, BallM};

verus! {

/// Angle units in one full turn.
pub const TURN_UNITS: u32 = 1200;

/// Angle units between consecutive vertices of the hexagon.
pub const VERTEX_STEP: u32 = 200;

/// Angle units the hexagon turns each frame: 1/400 of a turn.
pub const ROTATION_STEP: u32 = 3;

/// Damping numerator for the velocity reversal on leaving the hexagon:
/// 0.90 of the speed is kept.
pub const BOUNCE_DAMP: i64 = 90_000;

/// Mathematical value of a [`RegularHexagon`].
pub ghost struct PolyM {
    pub center: Vec2M,
    pub circumradius: int,
    pub orientation: int,
}

impl PolyM {
    /// The hexagon's center, radius and orientation are within the
    /// engine's working range.
    pub open spec fn ok(self) -> bool {
        &&& abs_spec(self.center.x) <= COORD_LIMIT
        &&& abs_spec(self.center.y) <= COORD_LIMIT
        &&& 0 < self.circumradius <= RADIUS_LIMIT
        &&& 0 <= self.orientation < TURN_UNITS
    }

    /// The angle of vertex `k`, in angle units. Every vertex lies at
    /// exactly `circumradius` from `center` at this angle.
    pub open spec fn vertex_angle(self, k: int) -> int {
        (self.orientation + VERTEX_STEP * k) % (TURN_UNITS as int)
    }

    /// The hexagon turned rigidly by `steps` angle units about its center.
    pub open spec fn rotated(self, steps: int) -> PolyM {
        PolyM {
            center: self.center,
            circumradius: self.circumradius,
            orientation: (self.orientation + steps) % (TURN_UNITS as int),
        }
    }
}

/// A regular hexagon that rotates rigidly about its center.
#[derive(Clone, Copy, Debug, PartialEq, Eq, Structural)]
pub struct RegularHexagon {
    pub center: Vec2,
    pub circumradius: i64,
    pub orientation: u32,
}

impl View for RegularHexagon {
    type V = PolyM;

    open spec fn view(&self) -> PolyM {
        PolyM {
            center: self.center@,
            circumradius: self.circumradius as int,
            orientation: self.orientation as int,
        }
    }
}

impl RegularHexagon {
    /// Builds a hexagon from its center and circumradius, with vertex 0 one
    /// sixth of a turn above angle zero.
    pub fn new(center: Vec2, circumradius: i64) -> (p: RegularHexagon)
        ensures
            p@ == (PolyM {
                center: center@,
                circumradius: circumradius as int,
                orientation: VERTEX_STEP as int,
            }),
    {
        RegularHexagon { center, circumradius, orientation: VERTEX_STEP }
    }

    /// Rotates the hexagon rigidly by `steps` angle units.
    pub fn rotate(&mut self, steps: u32)
        ensures
            final(self)@ == old(self)@.rotated(steps as int),
    {
        proof {
            lemma_mod_bound(old(self)@.orientation + steps, TURN_UNITS as int);
        }
        self.orientation = ((self.orientation as u64 + steps as u64) % (TURN_UNITS as u64))
            as u32;
    }

    /// The angle of vertex `k`, in angle units.
    pub fn vertex_angle(&self, k: u32) -> (a: u32)
        requires
            k < 6,
        ensures
            a as int == self@.vertex_angle(k as int),
            a < TURN_UNITS,
    {
        proof {
            lemma_mod_bound(self@.orientation + VERTEX_STEP * k, TURN_UNITS as int);
        }
        ((self.orientation as u64 + (VERTEX_STEP * k) as u64) % (TURN_UNITS as u64)) as u32
    }
}

/// The polar angle pair of edge `k`: its two endpoints' vertex angles, the
/// last edge wrapping back to vertex 0.
pub open spec fn edge_angles_spec(p: PolyM, k: int) -> (int, int) {
    (p.vertex_angle(k), p.vertex_angle(if k == 5 { 0 } else { k + 1 }))
}

impl RegularHexagon {
    /// The six edges as pairs of vertex angles, consecutive vertices
    /// wrapping last to first. A display layer turns each angle into a
    /// cartesian vertex at the circumradius from the center.
    pub fn edges(&self) -> (r: Vec<(u32, u32)>)
        ensures
            r@.len() == 6,
            forall|k: int|
                0 <= k < 6 ==> (#[trigger] r@[k]).0 == edge_angles_spec(self@, k).0 && r@[k].1
                    == edge_angles_spec(self@, k).1,
    {
        let mut r: Vec<(u32, u32)> = Vec::new();
        let mut k: u32 = 0;
        while k < 6
            invariant
                k <= 6,
                r@.len() == k as int,
                forall|m: int|
                    0 <= m < k as int ==> (#[trigger] r@[m]).0 == edge_angles_spec(self@, m).0
                        && r@[m].1 == edge_angles_spec(self@, m).1,
            decreases 6 - k,
        {
            let a = self.vertex_angle(k);
            let b = self.vertex_angle(if k == 5 {
                0
            } else {
                k + 1
            });
            r.push((a, b));
            k += 1;
        }
        r
    }
}

/// Rigid rotation: the center and the circumradius never change, so every
/// vertex stays at exactly the circumradius from the center, and all
/// vertex angles advance by the same amount.
pub proof fn lemma_rotation_rigid(p: PolyM, steps: int)
    requires
        p.ok(),
        0 <= steps,
    ensures
        p.rotated(steps).center == p.center,
        p.rotated(steps).circumradius == p.circumradius,
        forall|k: int|
            #[trigger] p.rotated(steps).vertex_angle(k) == (p.vertex_angle(k) + steps) % (
            TURN_UNITS as int),
{
    let t = TURN_UNITS as int;
    assert forall|k: int|
        #[trigger] p.rotated(steps).vertex_angle(k) == (p.vertex_angle(k) + steps) % t by {
        let o = p.orientation;
        let v = VERTEX_STEP * k;
        lemma_add_mod_noop_right(v, o + steps, t);
        lemma_add_mod_noop_right(steps, o + v, t);
        assert(v + (o + steps) == o + v + steps);
        assert(steps + (o + v) == o + v + steps);
    }
}

/// Circumscribed-circle containment: a ball whose center has left the
/// circle of radius `circumradius` around the hexagon's center is clamped
/// back inside it and its velocity reversed and damped by 0.9.
pub open spec fn hex_resolve_spec(b: BallM, p: PolyM) -> BallM {
    if !(b.ok() && p.ok()) {
        b
    } else {
        let d = b.cir.center.sub(p.center);
        if d.norm_sq() <= p.circumradius * p.circumradius {
            b
        } else {
            let lup = d.len() + 1;
            let nc = p.center.add(d.scale_div(p.circumradius, lup));
            BallM {
                cir: CircleM { center: nc, r: b.cir.r },
                vel: b.vel.scale_div(-(BOUNCE_DAMP as int), SCALE as int),
            }
        }
    }
}

/// Resolves one ball against the rotating hexagon.
pub fn hex_resolve(b: &Ball, p: &RegularHexagon) -> (r: Ball)
    ensures
        r@ == hex_resolve_spec(b@, p@),
{
    if !(b.ok() && p.circumradius > 0 && p.circumradius <= RADIUS_LIMIT && -COORD_LIMIT
        <= p.center.x && p.center.x <= COORD_LIMIT && -COORD_LIMIT <= p.center.y && p.center.y
        <= COORD_LIMIT && p.orientation < TURN_UNITS) {
        return *b;
    }
    let d = b.cir.point().sub(p.center);
    let dd = d.norm_sq();
    proof {
        lemma_mul_bound(p@.circumradius, p@.circumradius, RADIUS_LIMIT as int,
            RADIUS_LIMIT as int);
    }
    if dd <= p.circumradius * p.circumradius {
        return *b;
    }
    let len = d.length();
    let lup = len + 1;
    proof {
        lemma_sq_nonneg(d@.x);
        lemma_sq_nonneg(d@.y);
        lemma_sq_lt(d@.x, lup as int);
        lemma_sq_lt(d@.y, lup as int);
        assert(abs_spec(d@.x) * abs_spec(p@.circumradius) <= abs_spec(lup as int)
            * 0x4000_0000_0000_0000) by (nonlinear_arith)
            requires
                abs_spec(d@.x) <= lup as int,
                lup as int >= 1,
                abs_spec(lup as int) == lup as int,
                0 <= abs_spec(p@.circumradius) <= RADIUS_LIMIT,
                RADIUS_LIMIT == 0x100_0000,
            ;
        assert(abs_spec(d@.y) * abs_spec(p@.circumradius) <= abs_spec(lup as int)
            * 0x4000_0000_0000_0000) by (nonlinear_arith)
            requires
                abs_spec(d@.y) <= lup as int,
                lup as int >= 1,
                abs_spec(lup as int) == lup as int,
                0 <= abs_spec(p@.circumradius) <= RADIUS_LIMIT,
                RADIUS_LIMIT == 0x100_0000,
            ;
    }
    let q = d.scale_div(p.circumradius, lup);
    proof {
        assert(abs_spec(d@.x) * abs_spec(p@.circumradius) <= (p@.circumradius) * (lup as int))
            by (nonlinear_arith)
            requires
                abs_spec(d@.x) <= lup as int,
                abs_spec(p@.circumradius) == p@.circumradius,
                p@.circumradius >= 0,
                lup as int >= 0,
            ;
        assert(abs_spec(d@.y) * abs_spec(p@.circumradius) <= (p@.circumradius) * (lup as int))
            by (nonlinear_arith)
            requires
                abs_spec(d@.y) <= lup as int,
                abs_spec(p@.circumradius) == p@.circumradius,
                p@.circumradius >= 0,
                lup as int >= 0,
            ;
        lemma_mul_comm(p@.circumradius, lup as int);
        lemma_mul_cancel(abs_spec(q@.x), p@.circumradius, lup as int);
        lemma_mul_cancel(abs_spec(q@.y), p@.circumradius, lup as int);
    }
    let nc = p.center.add(q);
    let nv = b.vel.scale_div(-BOUNCE_DAMP, SCALE);
    proof {
        lemma_mul_bound(b@.vel.x, -(BOUNCE_DAMP as int), VEL_LIMIT as int, BOUNCE_DAMP as int);
        lemma_mul_bound(b@.vel.y, -(BOUNCE_DAMP as int), VEL_LIMIT as int, BOUNCE_DAMP as int);
    }
    Ball::new(crate::circle::Circle::new(nc.x, nc.y, b.cir.r), nv)
}

/// After hexagon containment, the ball's center lies inside (or on) the
/// circumscribed circle.
pub proof fn lemma_hex_resolution_contains(b: BallM, p: PolyM)
    requires
        b.ok(),
        p.ok(),
    ensures
        ({
            let r = hex_resolve_spec(b, p);
            r.cir.center.sub(p.center).norm_sq() <= p.circumradius * p.circumradius
        }),
{
    let d = b.cir.center.sub(p.center);
    let dd = d.norm_sq();
    let rr = p.circumradius;
    if dd <= rr * rr {
    } else {
        let len = d.len();
        let lup = len + 1;
        crate::num::lemma_isqrt_spec(dd as nat);
        lemma_sq_nonneg(d.x);
        lemma_sq_nonneg(d.y);
        let q = d.scale_div(rr, lup);
        let nc = p.center.add(q);
        assert(hex_resolve_spec(b, p).cir.center == nc);
        assert(nc.sub(p.center) == q);
        // |q.x| * lup <= |d.x| * rr, squared and summed, gives
        // |q|^2 * lup^2 <= |d|^2 * rr^2 < lup^2 * rr^2.
        crate::num::lemma_div_trunc_le(d.x * rr, lup);
        crate::num::lemma_div_trunc_le(d.y * rr, lup);
        lemma_abs_mul_sq(q.x, d.x, rr, lup);
        lemma_abs_mul_sq(q.y, d.y, rr, lup);
        assert((q.x * q.x + q.y * q.y) * (lup * lup) <= (d.x * d.x + d.y * d.y) * (rr * rr))
            by (nonlinear_arith)
            requires
                (q.x * q.x) * (lup * lup) <= (d.x * d.x) * (rr * rr),
                (q.y * q.y) * (lup * lup) <= (d.y * d.y) * (rr * rr),
            ;
        assert((d.x * d.x + d.y * d.y) * (rr * rr) <= (lup * lup) * (rr * rr))
            by (nonlinear_arith)
            requires
                d.x * d.x + d.y * d.y < lup * lup,
                rr * rr >= 0,
            ;
        lemma_sq_nonneg(rr);
        assert(q.norm_sq() <= rr * rr) by (nonlinear_arith)
            requires
                q.norm_sq() == q.x * q.x + q.y * q.y,
                (q.x * q.x + q.y * q.y) * (lup * lup) <= (lup * lup) * (rr * rr),
                lup >= 1,
            ;
    }
}

/// From `|q| * l <= |a| * r` (all nonnegative bounds), squaring gives
/// `q^2 * l^2 <= a^2 * r^2`.
proof fn lemma_abs_mul_sq(q: int, a: int, r: int, l: int)
    requires
        abs_spec(crate::num::div_trunc_spec(a * r, l)) * l <= abs_spec(a * r),
        q == crate::num::div_trunc_spec(a * r, l),
        l >= 1,
    ensures
        (q * q) * (l * l) <= (a * a) * (r * r),
{
    assert((q * q) * (l * l) <= (a * a) * (r * r)) by (nonlinear_arith)
        requires
            abs_spec(q) * l <= abs_spec(a * r),
            l >= 1,
        ;
}

} // verus!
