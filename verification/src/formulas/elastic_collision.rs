//! The velocity of a body after an elastic collision.

use vstd::prelude::*;
use crate::arith::{difference, product, quotient, sum};
use crate::scalar::{Scalar, TWO_BITS};
use crate::vec::vec_2d::Vec2d;

verus! {

/// One component of the velocity after the collision:
/// `(v1 * (m1 - m2) + 2 * v2 * m2) / (m1 + m2)`, each step rounded.
pub open spec fn rebound(v1: Scalar, m1: Scalar, m2: Scalar, v2: Scalar) -> Scalar {
    quotient(
        sum(product(v1, difference(m1, m2)), product(product(Scalar { bits: TWO_BITS }, v2), m2)),
        sum(m1, m2),
    )
}

/// The velocity after the collision, component by component.
pub open spec fn rebound_of(v1: Vec2d, m1: Scalar, m2: Scalar, v2: Vec2d) -> Vec2d {
    Vec2d { x: rebound(v1.x, m1, m2, v2.x), y: rebound(v1.y, m1, m2, v2.y) }
}

/// The velocity of the first body after an elastic collision with the second:
/// the formula of the collision along a line, applied to each axis by itself.
/// Masses that add up to zero give what the division gives: NaN or an
/// infinity.
pub fn calculate(v1: Vec2d, m1: Scalar, m2: Scalar, v2: Vec2d) -> (r: Vec2d)
    ensures
        r == rebound_of(v1, m1, m2, v2),
{
    let two: Scalar = Scalar::from_bits(TWO_BITS);
    let numerator_x: Scalar = v1.x * (m1 - m2) + two * v2.x * m2;
    let numerator_y: Scalar = v1.y * (m1 - m2) + two * v2.y * m2;
    let denominator: Scalar = m1 + m2;
    Vec2d::new(numerator_x / denominator, numerator_y / denominator)
}

} // verus!
