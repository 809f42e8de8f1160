//! The simulated body.

pub mod obj_2d;
