//! 2D vectors in fixed-point coordinates, with their mathematical model.

use vstd::prelude::*;
use crate::num::{
    abs_spec, div_trunc_spec, isqrt_spec, mul_div_spec, mul_div_trunc, isqrt, lemma_mul_bound,
    lemma_sq_nonneg, lemma_isqrt_spec,
};

verus! {

/// Mathematical value of a [`Vec2`]: a pair of unbounded integers.
pub ghost struct Vec2M {
    pub x: int,
    pub y: int,
}

impl Vec2M {
    /// Componentwise sum.
    pub open spec fn add(self, o: Vec2M) -> Vec2M {
        Vec2M { x: self.x + o.x, y: self.y + o.y }
    }

    /// Componentwise difference.
    pub open spec fn sub(self, o: Vec2M) -> Vec2M {
        Vec2M { x: self.x - o.x, y: self.y - o.y }
    }

    /// Dot product.
    pub open spec fn dot(self, o: Vec2M) -> int {
        self.x * o.x + self.y * o.y
    }

    /// Squared length.
    pub open spec fn norm_sq(self) -> int {
        self.dot(self)
    }

    /// Length rounded down.
    pub open spec fn len(self) -> int {
        isqrt_spec(self.norm_sq() as nat) as int
    }

    /// Both components truncating-scaled by `num / den`.
    pub open spec fn scale_div(self, num: int, den: int) -> Vec2M {
        Vec2M { x: mul_div_spec(self.x, num, den), y: mul_div_spec(self.y, num, den) }
    }

    /// Largest component magnitude.
    pub open spec fn norm_max(self) -> int {
        if abs_spec(self.x) >= abs_spec(self.y) {
            abs_spec(self.x)
        } else {
            abs_spec(self.y)
        }
    }
}

/// A 2D vector with fixed-point integer components.
#[derive(Clone, Copy, Debug, PartialEq, Eq, Structural)]
pub struct Vec2 {
    pub x: i64,
    pub y: i64,
}

impl View for Vec2 {
    type V = Vec2M;

    open spec fn view(&self) -> Vec2M {
        Vec2M { x: self.x as int, y: self.y as int }
    }
}

impl Vec2 {
    /// Builds a vector from its components.
    pub fn new(x: i64, y: i64) -> (r: Vec2)
        ensures
            r@ == (Vec2M { x: x as int, y: y as int }),
    {
        Vec2 { x, y }
    }

    /// Componentwise sum.
    pub fn add(self, o: Vec2) -> (r: Vec2)
        requires
            abs_spec(self@.x + o@.x) <= i64::MAX,
            abs_spec(self@.y + o@.y) <= i64::MAX,
        ensures
            r@ == self@.add(o@),
    {
        Vec2 { x: self.x + o.x, y: self.y + o.y }
    }

    /// Componentwise difference.
    pub fn sub(self, o: Vec2) -> (r: Vec2)
        requires
            abs_spec(self@.x - o@.x) <= i64::MAX,
            abs_spec(self@.y - o@.y) <= i64::MAX,
        ensures
            r@ == self@.sub(o@),
    {
        Vec2 { x: self.x - o.x, y: self.y - o.y }
    }

    /// Dot product; the operands' components must be small enough that the
    /// result fits.
    pub fn dot(self, o: Vec2) -> (r: i64)
        requires
            self@.norm_max() <= 0x7FFF_FFFF,
            o@.norm_max() <= 0x7FFF_FFFF,
        ensures
            r == self@.dot(o@),
    {
        proof {
            lemma_mul_bound(self@.x, o@.x, 0x7FFF_FFFF, 0x7FFF_FFFF);
            lemma_mul_bound(self@.y, o@.y, 0x7FFF_FFFF, 0x7FFF_FFFF);
        }
        self.x * o.x + self.y * o.y
    }

    /// Squared length.
    pub fn norm_sq(self) -> (r: i64)
        requires
            self@.norm_max() <= 0x7FFF_FFFF,
        ensures
            r == self@.norm_sq(),
            r >= 0,
    {
        proof {
            lemma_sq_nonneg(self@.x);
            lemma_sq_nonneg(self@.y);
        }
        self.dot(self)
    }

    /// Length rounded down.
    pub fn length(self) -> (r: i64)
        requires
            self@.norm_max() <= 0x7FFF_FFFF,
        ensures
            r == self@.len(),
            0 <= r <= 0xFFFF_FFFF,
            r * r <= self@.norm_sq(),
            self@.norm_sq() < (r + 1) * (r + 1),
    {
        let d = self.norm_sq();
        let r = isqrt(d as u64);
        proof {
            lemma_isqrt_spec(self@.norm_sq() as nat);
        }
        r as i64
    }

    /// Both components truncating-scaled by `num / den`.
    pub fn scale_div(self, num: i64, den: i64) -> (r: Vec2)
        requires
            den > 0,
            num != i64::MIN,
            self@.x != i64::MIN,
            self@.y != i64::MIN,
            abs_spec(self@.x) * abs_spec(num as int) <= abs_spec(den as int)
                * 0x4000_0000_0000_0000,
            abs_spec(self@.y) * abs_spec(num as int) <= abs_spec(den as int)
                * 0x4000_0000_0000_0000,
        ensures
            r@ == self@.scale_div(num as int, den as int),
            abs_spec(r@.x) * den <= abs_spec(self@.x) * abs_spec(num as int),
            abs_spec(r@.y) * den <= abs_spec(self@.y) * abs_spec(num as int),
    {
        Vec2 {
            x: mul_div_trunc(self.x, num, den),
            y: mul_div_trunc(self.y, num, den),
        }
    }
}

} // verus!
