//! Static axis-aligned rectangular walls, with the circle-AABB overlap
//! test and a push-out-and-reflect resolution along the nearest face.

use vstd::prelude::*;
use crate::num::{abs_spec, COORD_LIMIT, SEP_EPS};
use crate::vec2::{Vec2, Vec2M};
use crate::circle::{Circle, CircleM};
use crate::ball::{Ball, BallM};

verus! {

/// `v` clamped into `[lo, hi]`.
pub open spec fn clamp_spec(v: int, lo: int, hi: int) -> int {
    if v < lo {
        lo
    } else if v > hi {
        hi
    } else {
        v
    }
}

/// Mathematical value of a [`Rect`].
pub ghost struct RectM {
    pub x: int,
    pub y: int,
    pub w: int,
    pub h: int,
}

impl RectM {
    /// The rectangle is within the engine's working range.
    pub open spec fn ok(self) -> bool {
        &&& abs_spec(self.x) <= COORD_LIMIT
        &&& abs_spec(self.y) <= COORD_LIMIT
        &&& 0 < self.w <= COORD_LIMIT
        &&& 0 < self.h <= COORD_LIMIT
    }

    /// The point of the rectangle nearest to `p`.
    pub open spec fn clamp(self, p: Vec2M) -> Vec2M {
        Vec2M { x: clamp_spec(p.x, self.x, self.x + self.w), y: clamp_spec(p.y, self.y, self.y + self.h) }
    }

    /// Circle-AABB overlap: the circle contains the rectangle's nearest
    /// point (touching included).
    pub open spec fn overlaps_circle(self, c: CircleM) -> bool {
        c.contains(self.clamp(c.center))
    }
}

/// An axis-aligned rectangle given by its top-left corner and size.
#[derive(Clone, Copy, Debug, PartialEq, Eq, Structural)]
pub struct Rect {
    pub x: i64,
    pub y: i64,
    pub w: i64,
    pub h: i64,
}

impl View for Rect {
    type V = RectM;

    open spec fn view(&self) -> RectM {
        RectM { x: self.x as int, y: self.y as int, w: self.w as int, h: self.h as int }
    }
}

impl Rect {
    /// Builds a rectangle from its top-left corner and size.
    pub fn new(x: i64, y: i64, w: i64, h: i64) -> (r: Rect)
        ensures
            r@ == (RectM { x: x as int, y: y as int, w: w as int, h: h as int }),
    {
        Rect { x, y, w, h }
    }

    /// Whether the rectangle is within the engine's working range.
    pub fn ok(&self) -> (res: bool)
        ensures
            res == self@.ok(),
    {
        -COORD_LIMIT <= self.x && self.x <= COORD_LIMIT && -COORD_LIMIT <= self.y && self.y
            <= COORD_LIMIT && 0 < self.w && self.w <= COORD_LIMIT && 0 < self.h && self.h
            <= COORD_LIMIT
    }
}

impl Circle {
    /// Circle-AABB overlap test (touching included).
    pub fn overlaps_rect(&self, rect: &Rect) -> (res: bool)
        requires
            self@.ok(),
            rect@.ok(),
        ensures
            res == rect@.overlaps_circle(self@),
    {
        let qx = if self.x < rect.x {
            rect.x
        } else if self.x > rect.x + rect.w {
            rect.x + rect.w
        } else {
            self.x
        };
        let qy = if self.y < rect.y {
            rect.y
        } else if self.y > rect.y + rect.h {
            rect.y + rect.h
        } else {
            self.y
        };
        self.contains(Vec2::new(qx, qy))
    }
}

/// Resolution of one ball against one wall: the ball is pushed out along
/// the face it penetrates least, just clear of the wall, and the velocity
/// component along that axis is turned to point away from the wall.
pub open spec fn resolve_rect_spec(b: BallM, rect: RectM) -> BallM {
    if !(b.ok() && rect.ok()) || !rect.overlaps_circle(b.cir) {
        b
    } else {
        let c = b.cir.center;
        let r = b.cir.r;
        let pl = c.x + r - rect.x;
        let pr = rect.x + rect.w - (c.x - r);
        let pt = c.y + r - rect.y;
        let pb = rect.y + rect.h - (c.y - r);
        if pl <= pr && pl <= pt && pl <= pb {
            BallM {
                cir: CircleM { center: Vec2M { x: rect.x - r - SEP_EPS, y: c.y }, r },
                vel: Vec2M { x: -abs_spec(b.vel.x), y: b.vel.y },
            }
        } else if pr <= pt && pr <= pb {
            BallM {
                cir: CircleM { center: Vec2M { x: rect.x + rect.w + r + SEP_EPS, y: c.y }, r },
                vel: Vec2M { x: abs_spec(b.vel.x), y: b.vel.y },
            }
        } else if pt <= pb {
            BallM {
                cir: CircleM { center: Vec2M { x: c.x, y: rect.y - r - SEP_EPS }, r },
                vel: Vec2M { x: b.vel.x, y: -abs_spec(b.vel.y) },
            }
        } else {
            BallM {
                cir: CircleM { center: Vec2M { x: c.x, y: rect.y + rect.h + r + SEP_EPS }, r },
                vel: Vec2M { x: b.vel.x, y: abs_spec(b.vel.y) },
            }
        }
    }
}

/// Resolves one ball against one wall.
pub fn resolve_rect(b: &Ball, rect: &Rect) -> (res: Ball)
    ensures
        res@ == resolve_rect_spec(b@, rect@),
{
    if !(b.ok() && rect.ok()) {
        return *b;
    }
    if !b.cir.overlaps_rect(rect) {
        return *b;
    }
    let pl = b.cir.x + b.cir.r - rect.x;
    let pr = rect.x + rect.w - (b.cir.x - b.cir.r);
    let pt = b.cir.y + b.cir.r - rect.y;
    let pb = rect.y + rect.h - (b.cir.y - b.cir.r);
    let ax = if b.vel.x >= 0 {
        b.vel.x
    } else {
        -b.vel.x
    };
    let ay = if b.vel.y >= 0 {
        b.vel.y
    } else {
        -b.vel.y
    };
    if pl <= pr && pl <= pt && pl <= pb {
        Ball::new(
            Circle::new(rect.x - b.cir.r - SEP_EPS, b.cir.y, b.cir.r),
            Vec2::new(-ax, b.vel.y),
        )
    } else if pr <= pt && pr <= pb {
        Ball::new(
            Circle::new(rect.x + rect.w + b.cir.r + SEP_EPS, b.cir.y, b.cir.r),
            Vec2::new(ax, b.vel.y),
        )
    } else if pt <= pb {
        Ball::new(
            Circle::new(b.cir.x, rect.y - b.cir.r - SEP_EPS, b.cir.r),
            Vec2::new(b.vel.x, -ay),
        )
    } else {
        Ball::new(
            Circle::new(b.cir.x, rect.y + rect.h + b.cir.r + SEP_EPS, b.cir.r),
            Vec2::new(b.vel.x, ay),
        )
    }
}

/// Resolution against a list of walls, in order.
pub open spec fn resolve_rects_spec(b: BallM, walls: Seq<RectM>, k: int) -> BallM
    decreases walls.len() - k,
{
    if k < 0 || k >= walls.len() {
        b
    } else {
        resolve_rects_spec(resolve_rect_spec(b, walls[k]), walls, k + 1)
    }
}

/// Resolves one ball against every wall, in order.
pub fn resolve_rects(b: &Ball, walls: &Vec<Rect>) -> (res: Ball)
    ensures
        res@ == resolve_rects_spec(b@, walls@.map_values(|r: Rect| r@), 0),
{
    let ghost wallms = walls@.map_values(|r: Rect| r@);
    let mut cur = *b;
    let mut k: usize = 0;
    while k < walls.len()
        invariant
            k <= walls.len(),
            wallms == walls@.map_values(|r: Rect| r@),
            wallms.len() == walls@.len(),
            resolve_rects_spec(cur@, wallms, k as int) == resolve_rects_spec(b@, wallms, 0),
        decreases walls.len() - k,
    {
        cur = resolve_rect(&cur, &walls[k]);
        k += 1;
    }
    cur
}

} // verus!
