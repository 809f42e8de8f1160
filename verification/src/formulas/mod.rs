//! The scalar kernels: products, lengths, roots and powers.

pub mod dot;
pub mod elastic_collision;
pub mod pitagoras;
pub mod pow;
pub mod sqrt;
