//! A ball: a circle plus a velocity. All balls have the same unit mass, so
//! an elastic collision exchanges the velocity components parallel to the
//! collision normal.

use vstd::prelude::*;
use crate::num::{abs_spec, VEL_LIMIT};
use crate::circle::{Circle, CircleM};
use crate::vec2::{Vec2, Vec2M};

verus! {

/// Mathematical value of a [`Ball`].
pub ghost struct BallM {
    pub cir: CircleM,
    pub vel: Vec2M,
}

impl BallM {
    /// The ball's shape and velocity are within the engine's working range.
    pub open spec fn ok(self) -> bool {
        &&& self.cir.ok()
        &&& abs_spec(self.vel.x) <= VEL_LIMIT
        &&& abs_spec(self.vel.y) <= VEL_LIMIT
    }
}

/// A circular rigid body with a velocity.
#[derive(Clone, Copy, Debug, PartialEq, Eq, Structural)]
pub struct Ball {
    pub cir: Circle,
    pub vel: Vec2,
}

impl View for Ball {
    type V = BallM;

    open spec fn view(&self) -> BallM {
        BallM { cir: self.cir@, vel: self.vel@ }
    }
}

impl Ball {
    /// Builds a ball from its bounding circle and velocity.
    pub fn new(cir: Circle, vel: Vec2) -> (b: Ball)
        ensures
            b@ == (BallM { cir: cir@, vel: vel@ }),
    {
        Ball { cir, vel }
    }

    /// Whether the ball is within the engine's working range.
    pub fn ok(&self) -> (res: bool)
        ensures
            res == self@.ok(),
    {
        self.cir.ok() && -VEL_LIMIT <= self.vel.x && self.vel.x <= VEL_LIMIT && -VEL_LIMIT
            <= self.vel.y && self.vel.y <= VEL_LIMIT
    }
}

} // verus!
