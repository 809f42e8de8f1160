//! A vector of two scalars.

use vstd::prelude::*;
use vstd::std_specs::cmp::PartialEqSpecImpl;
use vstd::std_specs::ops::{AddSpecImpl, DivSpecImpl, MulSpecImpl, SubSpecImpl};
use core::ops::{Add, Div, Mul, Sub};
use crate::arith::{difference, quotient, sum};
use crate::formulas::dot::{dot_of, length, length_of};
use crate::order::equal;
use crate::scalar::Scalar;

verus! {

/// A vector of the plane. It is a plain value: nothing holds of its
/// components but what holds of every scalar.
#[derive(Debug, Clone, Copy)]
pub struct Vec2d {
    /// The x component of the vector
    pub x: Scalar,
    /// The y component of the vector
    pub y: Scalar,
}

/// The vector that leads from `from` to `to`: `to - from`, by components.
pub open spec fn component_of(from: Vec2d, to: Vec2d) -> Vec2d {
    Vec2d { x: difference(to.x, from.x), y: difference(to.y, from.y) }
}

/// The distance of two points: the length of the vector between them.
pub open spec fn distance_of(from: Vec2d, to: Vec2d) -> Scalar {
    length_of(component_of(from, to))
}

/// Both components are equal as numbers: a vector with a NaN equals nothing.
pub open spec fn same_point(a: Vec2d, b: Vec2d) -> bool {
    equal(a.x, b.x) && equal(a.y, b.y)
}

impl PartialEqSpecImpl for Vec2d {
    open spec fn obeys_eq_spec() -> bool {
        true
    }

    open spec fn eq_spec(&self, other: &Vec2d) -> bool {
        same_point(*self, *other)
    }
}

impl PartialEq for Vec2d {
    fn eq(&self, other: &Vec2d) -> (r: bool)
        ensures
            r == same_point(*self, *other),
    {
        self.x == other.x && self.y == other.y
    }
}

impl Vec2d {
    /// The vector with the components `x` and `y`.
    #[must_use]
    pub fn new(x: Scalar, y: Scalar) -> (r: Vec2d)
        ensures
            r.x == x,
            r.y == y,
    {
        Vec2d { x, y }
    }

    /// The vector that leads from this one to `target`.
    #[must_use]
    pub fn component(&self, target: Vec2d) -> (r: Vec2d)
        ensures
            r == component_of(*self, target),
    {
        Vec2d { x: (target.x - self.x), y: (target.y - self.y) }
    }

    /// The length of the vector.
    #[must_use]
    pub fn magnitude(&self) -> (r: Scalar)
        ensures
            r == length_of(*self),
    {
        length(*self)
    }

    /// The distance between this vector and `target`.
    #[must_use]
    pub fn distance(&self, target: Vec2d) -> (r: Scalar)
        ensures
            r == distance_of(*self, target),
    {
        let ab: Vec2d = self.component(target);
        length(ab)
    }
}

impl AddSpecImpl for Vec2d {
    open spec fn obeys_add_spec() -> bool {
        true
    }

    open spec fn add_req(self, rhs: Vec2d) -> bool {
        true
    }

    open spec fn add_spec(self, rhs: Vec2d) -> Vec2d {
        Vec2d { x: sum(self.x, rhs.x), y: sum(self.y, rhs.y) }
    }
}

/// `+` adds two vectors by components.
impl Add for Vec2d {
    type Output = Vec2d;

    fn add(self, rhs: Vec2d) -> (r: Vec2d)
        ensures
            r == (Vec2d { x: sum(self.x, rhs.x), y: sum(self.y, rhs.y) }),
    {
        Vec2d { x: self.x + rhs.x, y: self.y + rhs.y }
    }
}

impl SubSpecImpl for Vec2d {
    open spec fn obeys_sub_spec() -> bool {
        true
    }

    open spec fn sub_req(self, rhs: Vec2d) -> bool {
        true
    }

    open spec fn sub_spec(self, rhs: Vec2d) -> Vec2d {
        Vec2d { x: difference(self.x, rhs.x), y: difference(self.y, rhs.y) }
    }
}

/// `-` subtracts one vector from another by components.
impl Sub for Vec2d {
    type Output = Vec2d;

    fn sub(self, rhs: Vec2d) -> (r: Vec2d)
        ensures
            r == (Vec2d { x: difference(self.x, rhs.x), y: difference(self.y, rhs.y) }),
    {
        Vec2d { x: self.x - rhs.x, y: self.y - rhs.y }
    }
}

impl MulSpecImpl for Vec2d {
    open spec fn obeys_mul_spec() -> bool {
        true
    }

    open spec fn mul_req(self, rhs: Vec2d) -> bool {
        true
    }

    open spec fn mul_spec(self, rhs: Vec2d) -> Scalar {
        dot_of(self, rhs)
    }
}

/// `*` is the dot product of two vectors: a scalar, not a vector.
impl Mul for Vec2d {
    type Output = Scalar;

    fn mul(self, rhs: Vec2d) -> (r: Scalar)
        ensures
            r == dot_of(self, rhs),
    {
        self.x * rhs.x + self.y * rhs.y
    }
}

impl DivSpecImpl<Scalar> for Vec2d {
    open spec fn obeys_div_spec() -> bool {
        true
    }

    open spec fn div_req(self, rhs: Scalar) -> bool {
        true
    }

    open spec fn div_spec(self, rhs: Scalar) -> Vec2d {
        Vec2d { x: quotient(self.x, rhs), y: quotient(self.y, rhs) }
    }
}

/// `/` divides each component of a vector by a scalar.
impl Div<Scalar> for Vec2d {
    type Output = Vec2d;

    fn div(self, rhs: Scalar) -> (r: Vec2d)
        ensures
            r == (Vec2d { x: quotient(self.x, rhs), y: quotient(self.y, rhs) }),
    {
        Vec2d { x: self.x / rhs, y: self.y / rhs }
    }
}

/// The vector with the components `a` and `b`.
#[inline]
pub fn vec2(a: Scalar, b: Scalar) -> (r: Vec2d)
    ensures
        r.x == a,
        r.y == b,
{
    Vec2d::new(a, b)
}

} // verus!
