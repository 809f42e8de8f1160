//! The hypotenuse of a right-angled triangle.

use vstd::prelude::*;
use crate::arith::{product, sum};
use crate::formulas::sqrt::{root, sqrt};
use crate::scalar::Scalar;

verus! {

/// The hypotenuse over the legs `a` and `b`: the approximate root of the sum
/// of their squares.
pub open spec fn hypotenuse(a: Scalar, b: Scalar) -> Scalar {
    root(sum(product(a, a), product(b, b)))
}

/// The hypotenuse of the right-angled triangle with the legs `a` and `b`.
pub fn calculate_pt(a: Scalar, b: Scalar) -> (r: Scalar)
    ensures
        r == hypotenuse(a, b),
{
    let ab: Scalar = a * a + b * b;
    sqrt(ab)
}

} // verus!
