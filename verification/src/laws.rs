//! What holds of the operations, whatever they are given.

use vstd::prelude::*;
use vstd::arithmetic::power2::{pow2, lemma_pow2_adds, lemma_pow2_pos, lemma2_to64};
use crate::arith::{difference, negation, product, sum, lemma_sum_commutes};
use crate::collision::in_contact;
use crate::collision::shape::Shape;
use crate::formulas::dot::dot_of;
use crate::formulas::pow::{power, power_steps};
use crate::formulas::sqrt::root;
use crate::obj::obj_2d::Object2d;
use crate::order::{equal, less};
use crate::rounding::{INF_MAG, mag_value, round_mag, lemma_mag_value_order, lemma_mag_value_scaled, lemma_round_mag_defined, lemma_round_mag_exact};
use crate::scalar::{Scalar, ONE_BITS};
use crate::vec::vec_2d::{component_of, distance_of, Vec2d};

verus! {

/// A pattern that is put together from a sign and magnitude bits holds them.
pub proof fn lemma_signed_parts(negative: bool, mag: nat)
    requires
        mag < 0x8000_0000,
    ensures
        Scalar::signed(negative, mag).mag() == mag,
        Scalar::signed(negative, mag).negative() == negative,
{
}

/// A rounded scalar is a number or an infinity, never a NaN, and has the sign
/// that it was given.
pub proof fn lemma_rounded_parts(negative: bool, n: nat, d: nat)
    requires
        d > 0,
    ensures
        Scalar::rounded(negative, n, d).mag() == round_mag(n, d),
        Scalar::rounded(negative, n, d).mag() <= INF_MAG,
        Scalar::rounded(negative, n, d).negative() == negative,
{
    lemma_round_mag_defined(n, d);
    lemma_signed_parts(negative, round_mag(n, d));
}

/// The product does not depend on the order of its factors.
pub proof fn lemma_product_commutes(a: Scalar, b: Scalar)
    ensures
        product(a, b) == product(b, a),
{
    assert(mag_value(a.mag()) * mag_value(b.mag()) == mag_value(b.mag()) * mag_value(a.mag()))
        by (nonlinear_arith);
}

/// The dot product does not depend on the order of the vectors.
pub proof fn lemma_dot_symmetric(u: Vec2d, v: Vec2d)
    ensures
        dot_of(u, v) == dot_of(v, u),
{
    lemma_product_commutes(u.x, v.x);
    lemma_product_commutes(u.y, v.y);
}

/// The square of a scalar depends on its magnitude bits alone.
pub proof fn lemma_square_of_magnitude(x: Scalar, y: Scalar)
    requires
        x.mag() == y.mag(),
    ensures
        product(x, x) == product(y, y),
{
}

/// The two differences of two scalars have the same magnitude bits: they are
/// the same number with opposite signs, or both a zero, or both the NaN.
pub proof fn lemma_difference_mirrors(a: Scalar, b: Scalar)
    ensures
        difference(a, b).mag() == difference(b, a).mag(),
{
    let na = negation(a);
    let nb = negation(b);
    lemma_signed_parts(!a.negative(), a.mag());
    lemma_signed_parts(!b.negative(), b.mag());
    lemma_signed_parts(true, INF_MAG as nat);
    lemma_signed_parts(false, INF_MAG as nat);
    lemma_signed_parts(true, 0);
    lemma_signed_parts(false, 0);
    if a.finite() && b.finite() {
        let there = a.value() + nb.value();
        let back = b.value() + na.value();
        assert(there == -back);
        if there > 0 {
            lemma_rounded_parts(false, there as nat, 1);
            lemma_rounded_parts(true, there as nat, 1);
        } else if there < 0 {
            lemma_rounded_parts(false, back as nat, 1);
            lemma_rounded_parts(true, back as nat, 1);
        }
    }
}

/// The distance from `a` to `b` is the distance from `b` to `a`, pattern for
/// pattern, whatever the two vectors hold.
pub proof fn lemma_distance_symmetric(a: Vec2d, b: Vec2d)
    ensures
        distance_of(a, b) == distance_of(b, a),
{
    let there = component_of(a, b);
    let back = component_of(b, a);
    lemma_difference_mirrors(b.x, a.x);
    lemma_difference_mirrors(b.y, a.y);
    lemma_square_of_magnitude(there.x, back.x);
    lemma_square_of_magnitude(there.y, back.y);
}

/// Contact does not depend on the order of the two bodies.
pub proof fn lemma_contact_symmetric(a: Object2d, b: Object2d)
    ensures
        in_contact(a, b) == in_contact(b, a),
{
    lemma_distance_symmetric(a.vec, b.vec);
    lemma_sum_commutes(a.radius, b.radius);
}

/// Circles whose centres are exactly the sum of their radii apart are in
/// contact: the boundary counts.
pub proof fn lemma_circles_touch_at_boundary(a: Object2d, b: Object2d)
    requires
        a.shape is Circle,
        b.shape is Circle,
        equal(distance_of(a.vec, b.vec), sum(a.radius, b.radius)),
    ensures
        in_contact(a, b),
{
}

/// Circles whose centres are further apart than the sum of their radii are
/// not in contact.
pub proof fn lemma_circles_apart(a: Object2d, b: Object2d)
    requires
        a.shape is Circle,
        b.shape is Circle,
        less(sum(a.radius, b.radius), distance_of(a.vec, b.vec)),
    ensures
        !in_contact(a, b),
{
}

/// Boxes of which one begins where the other ends, on either axis, are not in
/// contact: a shared edge does not count.
pub proof fn lemma_boxes_sharing_an_edge(a: Object2d, b: Object2d)
    requires
        a.shape matches Shape::AABB(min1, max1) && b.shape matches Shape::AABB(min2, max2) && (
        equal(max1.x, min2.x) || equal(max2.x, min1.x) || equal(max1.y, min2.y) || equal(
            max2.y,
            min1.y,
        )),
    ensures
        !in_contact(a, b),
{
}

/// A body without a shape is in contact with nothing, and so is a circle with
/// a box.
pub proof fn lemma_mismatched_shapes(a: Object2d, b: Object2d)
    requires
        a.shape is Empty || b.shape is Empty || (a.shape is Circle && b.shape is AABB) || (
        a.shape is AABB && b.shape is Circle),
    ensures
        !in_contact(a, b),
{
}

/// The root of a number below zero, and of a NaN, is a NaN; every other root
/// is not.
pub proof fn lemma_root_fails_closed(x: Scalar)
    ensures
        root(x).nan() <==> (x.nan() || less(x, Scalar { bits: 0 })),
{
    lemma_mag_value_order(0, x.mag());
}

/// One times a number is that number, pattern for pattern: zeros and
/// infinities keep their sign, and nothing is rounded away.
pub proof fn lemma_one_is_neutral(x: Scalar)
    requires
        !x.nan(),
    ensures
        product(Scalar { bits: ONE_BITS }, x) == x,
        product(x, Scalar { bits: ONE_BITS }) == x,
{
    let one = Scalar { bits: ONE_BITS };
    lemma_product_commutes(x, one);
    lemma_signed_parts(x.negative(), x.mag());
    assert(Scalar::signed(x.negative(), x.mag()) == x);
    // the magnitude of one is 2^149 units
    lemma2_to64();
    lemma_mag_value_scaled(126, 0x80_0000);
    lemma_pow2_adds(23, 126);
    assert(one.mag() == 126 * 0x80_0000 + 0x80_0000);
    assert(mag_value(one.mag()) == pow2(149));
    if x.finite() {
        lemma_pow2_pos(149);
        let v = mag_value(x.mag());
        assert(pow2(149) * v == v * pow2(149)) by (nonlinear_arith);
        lemma_round_mag_exact(pow2(149) * v, pow2(149), x.mag());
    }
}

/// The first power of a number is that number.
pub proof fn lemma_first_power(base: Scalar)
    requires
        !base.nan(),
    ensures
        power(base, 1) == base,
{
    let one = Scalar { bits: ONE_BITS };
    lemma_one_is_neutral(base);
    reveal_with_fuel(power_steps, 2);
    assert(power_steps(one, base, 1) == power_steps(product(one, base), product(base, base), 0));
}

/// The power with the exponent 0 is one, whatever the base: also for a NaN.
pub proof fn lemma_zeroth_power(base: Scalar)
    ensures
        power(base, 0) == (Scalar { bits: ONE_BITS }),
{
}

/// The second power of a number is its square.
pub proof fn lemma_second_power(base: Scalar)
    requires
        !base.nan(),
    ensures
        power(base, 2) == product(base, base),
{
    let one = Scalar { bits: ONE_BITS };
    let square = product(base, base);
    reveal_with_fuel(power_steps, 3);
    assert(power_steps(one, base, 2) == power_steps(one, square, 1));
    assert(power_steps(one, square, 1) == power_steps(
        product(one, square),
        product(square, square),
        0,
    ));
    lemma_square_is_a_number(base);
    lemma_one_is_neutral(square);
}

/// The square of a number is a number or an infinity, and not negative.
pub proof fn lemma_square_is_a_number(x: Scalar)
    requires
        !x.nan(),
    ensures
        !product(x, x).nan(),
        !product(x, x).negative(),
{
    lemma_signed_parts(false, INF_MAG as nat);
    if x.finite() {
        lemma_pow2_pos(149);
        lemma_rounded_parts(false, mag_value(x.mag()) * mag_value(x.mag()), pow2(149));
    }
}

} // verus!
