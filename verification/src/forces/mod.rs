//! Forces that move a body for one tick.

pub mod force;
pub mod gravity;
pub mod move_2d;
