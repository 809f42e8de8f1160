//! The dot product and the lengths that come from it.

use vstd::prelude::*;
use crate::arith::{product, sum};
use crate::formulas::sqrt::{root, sqrt};
use crate::scalar::Scalar;
use crate::vec::vec_2d::Vec2d;

verus! {

/// The dot product: the products of the two pairs of components, added.
pub open spec fn dot_of(u: Vec2d, v: Vec2d) -> Scalar {
    sum(product(u.x, v.x), product(u.y, v.y))
}

/// The length of a vector: the approximate root of its dot product with
/// itself.
pub open spec fn length_of(u: Vec2d) -> Scalar {
    root(dot_of(u, u))
}

/// The dot product of two vectors.
pub fn dot(u: Vec2d, v: Vec2d) -> (r: Scalar)
    ensures
        r == dot_of(u, v),
{
    u.x * v.x + u.y * v.y
}

/// The squared length of a vector.
pub fn length2(u: Vec2d) -> (r: Scalar)
    ensures
        r == dot_of(u, u),
{
    dot(u, u)
}

/// The length of a vector.
pub fn length(u: Vec2d) -> (r: Scalar)
    ensures
        r == length_of(u),
{
    sqrt(length2(u))
}

} // verus!
