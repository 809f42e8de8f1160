//! Vectors of the plane.

pub mod vec_2d;
