//! A small 2D physics engine for circular bodies ("balls") moving under
//! gravity, colliding elastically with each other, and contained by a
//! boundary shape: the screen edges, a set of static rectangular walls, or a
//! rotating regular hexagon.
//!
//! All geometry is carried in fixed-point integers: one spatial unit is
//! `num::SCALE` sub-units. This keeps every operation exact or exactly
//! specified, so the collision and integration logic can be verified.

pub mod ball;
pub mod collision;
pub mod circle;
pub mod num;
pub mod polygon;
pub mod rect;
pub mod simulation;
pub mod vec2;
