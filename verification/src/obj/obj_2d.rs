//! A body, and a builder for one.

use vstd::prelude::*;
use crate::collision::shape::Shape;
use crate::forces::force::Force;
use crate::scalar::{Scalar, ZERO_BITS};
use crate::vec::vec_2d::{vec2, Vec2d};

verus! {

/// A body: a point with kinematic state and a shape. It holds no physics of
/// its own; forces change it.
#[derive(Debug, Clone, Copy)]
pub struct Object2d {
    /// The position of the body.
    pub vec: Vec2d,
    /// The density of the body.
    pub density: Scalar,
    /// The mass of the body.
    pub mass: Scalar,
    /// The velocity of the body.
    pub velocity: Vec2d,
    /// The acceleration of the body.
    pub acceleration: Vec2d,
    /// The radius of the body, where its shape has one.
    pub radius: Scalar,
    /// The shape of the body.
    pub shape: Shape,
}

impl Object2d {
    /// The body with the given state.
    #[must_use]
    pub fn new(
        vec: Vec2d,
        density: Scalar,
        mass: Scalar,
        velocity: Vec2d,
        acceleration: Vec2d,
        radius: Scalar,
        shape: Shape,
    ) -> (r: Object2d)
        ensures
            r == (Object2d { vec, density, mass, velocity, acceleration, radius, shape }),
    {
        Object2d { vec, density, mass, velocity, acceleration, radius, shape }
    }

    /// Lets `force` act on the body for one tick.
    pub fn apply<T: Force>(&mut self, force: &T)
        ensures
            *final(self) == force.applied(*old(self)),
            final(self).density == old(self).density,
            final(self).mass == old(self).mass,
            final(self).acceleration == old(self).acceleration,
            final(self).radius == old(self).radius,
            final(self).shape == old(self).shape,
    {
        force.apply_2d(self);
    }
}

/// The body with the given state.
#[inline]
pub fn obj2d(
    vec: Vec2d,
    density: Scalar,
    mass: Scalar,
    velocity: Vec2d,
    acceleration: Vec2d,
    radius: Scalar,
    shape: Shape,
) -> (r: Object2d)
    ensures
        r == (Object2d { vec, density, mass, velocity, acceleration, radius, shape }),
{
    Object2d::new(vec, density, mass, velocity, acceleration, radius, shape)
}

/// The body at rest at the origin, without mass, size or shape.
pub open spec fn blank_body() -> Object2d {
    let zero = Scalar { bits: ZERO_BITS };
    let origin = Vec2d { x: zero, y: zero };
    Object2d {
        vec: origin,
        density: zero,
        mass: zero,
        velocity: origin,
        acceleration: origin,
        radius: zero,
        shape: Shape::Empty,
    }
}

/// A body in the making: every field has a value from the start, and each
/// method sets one.
#[derive(Debug)]
pub struct Object2dBuilder {
    position: Vec2d,
    density: Scalar,
    mass: Scalar,
    velocity: Vec2d,
    acceleration: Vec2d,
    radius: Scalar,
    shape: Shape,
}

impl Object2dBuilder {
    /// The body that `build` would return.
    pub closed spec fn body(self) -> Object2d {
        Object2d {
            vec: self.position,
            density: self.density,
            mass: self.mass,
            velocity: self.velocity,
            acceleration: self.acceleration,
            radius: self.radius,
            shape: self.shape,
        }
    }

    /// A builder that holds the blank body.
    #[must_use]
    pub fn new() -> (r: Object2dBuilder)
        ensures
            r.body() == blank_body(),
    {
        let zero: Scalar = Scalar::from_bits(ZERO_BITS);
        Object2dBuilder {
            position: vec2(zero, zero),
            density: zero,
            mass: zero,
            velocity: vec2(zero, zero),
            acceleration: vec2(zero, zero),
            radius: zero,
            shape: Shape::Empty,
        }
    }

    #[must_use]
    pub fn position(self, vec: Vec2d) -> (r: Object2dBuilder)
        ensures
            r.body() == (Object2d { vec, ..self.body() }),
    {
        let mut next = self;
        next.position = vec;
        next
    }

    #[must_use]
    pub fn density(self, density: Scalar) -> (r: Object2dBuilder)
        ensures
            r.body() == (Object2d { density, ..self.body() }),
    {
        let mut next = self;
        next.density = density;
        next
    }

    #[must_use]
    pub fn mass(self, mass: Scalar) -> (r: Object2dBuilder)
        ensures
            r.body() == (Object2d { mass, ..self.body() }),
    {
        let mut next = self;
        next.mass = mass;
        next
    }

    #[must_use]
    pub fn velocity(self, vec: Vec2d) -> (r: Object2dBuilder)
        ensures
            r.body() == (Object2d { velocity: vec, ..self.body() }),
    {
        let mut next = self;
        next.velocity = vec;
        next
    }

    #[must_use]
    pub fn acceleration(self, vec: Vec2d) -> (r: Object2dBuilder)
        ensures
            r.body() == (Object2d { acceleration: vec, ..self.body() }),
    {
        let mut next = self;
        next.acceleration = vec;
        next
    }

    #[must_use]
    pub fn radius(self, radius: Scalar) -> (r: Object2dBuilder)
        ensures
            r.body() == (Object2d { radius, ..self.body() }),
    {
        let mut next = self;
        next.radius = radius;
        next
    }

    #[must_use]
    pub fn shape(self, shape: Shape) -> (r: Object2dBuilder)
        ensures
            r.body() == (Object2d { shape, ..self.body() }),
    {
        let mut next = self;
        next.shape = shape;
        next
    }

    /// The body that was built.
    #[must_use]
    pub fn build(self) -> (r: Object2d)
        ensures
            r == self.body(),
    {
        Object2d {
            vec: self.position,
            density: self.density,
            mass: self.mass,
            velocity: self.velocity,
            acceleration: self.acceleration,
            radius: self.radius,
            shape: self.shape,
        }
    }
}

impl Default for Object2dBuilder {
    fn default() -> (r: Object2dBuilder)
        ensures
            r.body() == blank_body(),
    {
        Object2dBuilder::new()
    }
}

} // verus!
