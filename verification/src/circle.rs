//! Circles: the bounding shape of a ball, with containment and overlap
//! tests. Touching counts as overlapping, so every test uses `<=`.

use vstd::prelude::*;
use crate::num::{abs_spec, lemma_mul_bound, COORD_LIMIT, RADIUS_LIMIT};
use crate::vec2::{Vec2, Vec2M};

verus! {

/// Mathematical value of a [`Circle`].
pub ghost struct CircleM {
    pub center: Vec2M,
    pub r: int,
}

impl CircleM {
    /// A point is inside the circle when its distance from the center is at
    /// most the radius.
    pub open spec fn contains(self, p: Vec2M) -> bool {
        p.sub(self.center).norm_sq() <= self.r * self.r
    }

    /// Two circles overlap when their centers are at most the sum of the
    /// radii apart.
    pub open spec fn overlaps(self, o: CircleM) -> bool {
        o.center.sub(self.center).norm_sq() <= (self.r + o.r) * (self.r + o.r)
    }

    /// The circle translated by `d`.
    pub open spec fn offset(self, d: Vec2M) -> CircleM {
        CircleM { center: self.center.add(d), r: self.r }
    }

    /// The circle re-centered at `p`.
    pub open spec fn move_to(self, p: Vec2M) -> CircleM {
        CircleM { center: p, r: self.r }
    }

    /// The circle's center and radius are within the engine's working range.
    pub open spec fn ok(self) -> bool {
        &&& abs_spec(self.center.x) <= COORD_LIMIT
        &&& abs_spec(self.center.y) <= COORD_LIMIT
        &&& 0 < self.r <= RADIUS_LIMIT
    }
}

/// A circle with a fixed-point center and radius.
#[derive(Clone, Copy, Debug, PartialEq, Eq, Structural)]
pub struct Circle {
    pub x: i64,
    pub y: i64,
    pub r: i64,
}

impl View for Circle {
    type V = CircleM;

    open spec fn view(&self) -> CircleM {
        CircleM { center: Vec2M { x: self.x as int, y: self.y as int }, r: self.r as int }
    }
}

impl Circle {
    /// Builds a circle from its center coordinates and radius.
    pub fn new(x: i64, y: i64, r: i64) -> (c: Circle)
        ensures
            c@ == (CircleM { center: Vec2M { x: x as int, y: y as int }, r: r as int }),
    {
        Circle { x, y, r }
    }

    /// The center as a vector.
    pub fn point(&self) -> (p: Vec2)
        ensures
            p@ == self@.center,
    {
        Vec2 { x: self.x, y: self.y }
    }

    /// Whether the circle's center and radius are within the engine's
    /// working range.
    pub fn ok(&self) -> (res: bool)
        ensures
            res == self@.ok(),
    {
        -COORD_LIMIT <= self.x && self.x <= COORD_LIMIT && -COORD_LIMIT <= self.y && self.y
            <= COORD_LIMIT && 0 < self.r && self.r <= RADIUS_LIMIT
    }

    /// Whether `p` lies in the circle (touching included).
    pub fn contains(&self, p: Vec2) -> (res: bool)
        requires
            self@.ok(),
            abs_spec(p@.x) <= 2 * COORD_LIMIT,
            abs_spec(p@.y) <= 2 * COORD_LIMIT,
        ensures
            res == self@.contains(p@),
    {
        let d = p.sub(self.point());
        proof {
            lemma_mul_bound(self@.r, self@.r, RADIUS_LIMIT as int, RADIUS_LIMIT as int);
        }
        d.norm_sq() <= self.r * self.r
    }

    /// Whether the two circles overlap (touching included).
    pub fn overlaps(&self, o: &Circle) -> (res: bool)
        requires
            self@.ok(),
            o@.ok(),
        ensures
            res == self@.overlaps(o@),
    {
        let d = o.point().sub(self.point());
        let sum = self.r + o.r;
        proof {
            lemma_mul_bound(sum as int, sum as int, 2 * RADIUS_LIMIT, 2 * RADIUS_LIMIT);
        }
        d.norm_sq() <= sum * sum
    }

    /// The circle translated by `d`.
    pub fn offset(&self, d: Vec2) -> (c: Circle)
        requires
            abs_spec(self@.center.x + d@.x) <= i64::MAX,
            abs_spec(self@.center.y + d@.y) <= i64::MAX,
        ensures
            c@ == self@.offset(d@),
    {
        Circle { x: self.x + d.x, y: self.y + d.y, r: self.r }
    }

    /// The circle re-centered at `p`.
    pub fn move_to(&self, p: Vec2) -> (c: Circle)
        ensures
            c@ == self@.move_to(p@),
    {
        Circle { x: p.x, y: p.y, r: self.r }
    }
}

} // verus!
