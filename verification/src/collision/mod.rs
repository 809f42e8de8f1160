//! Contact between two bodies.

use vstd::prelude::*;
use crate::arith::sum;
use crate::collision::shape::Shape;
use crate::obj::obj_2d::Object2d;
use crate::order::{less, less_or_equal};
use crate::scalar::Scalar;
use crate::vec::vec_2d::{distance_of, Vec2d};

pub mod shape;

verus! {

/// Two bodies that may be in contact.
pub struct Collision2d {
    /// The first body.
    pub obj1: Object2d,
    /// The second body.
    pub obj2: Object2d,
}

/// Two circles touch where the distance of their centres is at most the sum
/// of their radii: circles that only just touch are in contact.
pub open spec fn circles_touch(a: Object2d, b: Object2d) -> bool {
    less_or_equal(distance_of(a.vec, b.vec), sum(a.radius, b.radius))
}

/// Two boxes overlap where, on both axes, each begins strictly before the
/// other ends: boxes that share only an edge or a corner do not overlap.
pub open spec fn boxes_overlap(min1: Vec2d, max1: Vec2d, min2: Vec2d, max2: Vec2d) -> bool {
    less(min1.x, max2.x) && less(min2.x, max1.x) && less(min1.y, max2.y) && less(min2.y, max1.y)
}

/// Two bodies are in contact where both are circles that touch or both are
/// boxes that overlap. A body without a shape, and a circle with a box, are
/// never in contact.
pub open spec fn in_contact(a: Object2d, b: Object2d) -> bool {
    match (a.shape, b.shape) {
        (Shape::Circle, Shape::Circle) => circles_touch(a, b),
        (Shape::AABB(min1, max1), Shape::AABB(min2, max2)) => boxes_overlap(min1, max1, min2, max2),
        _ => false,
    }
}

impl Collision2d {
    /// The pair of the two bodies.
    pub fn new(obj1: Object2d, obj2: Object2d) -> (r: Collision2d)
        ensures
            r.obj1 == obj1,
            r.obj2 == obj2,
    {
        Collision2d { obj1, obj2 }
    }

    /// Whether the two bodies are in contact.
    pub fn collider(&self) -> (r: bool)
        ensures
            r == in_contact(self.obj1, self.obj2),
    {
        match (&self.obj1.shape, &self.obj2.shape) {
            (Shape::Circle, Shape::Circle) => self.circle_collision(),
            (Shape::AABB(_, _), Shape::AABB(_, _)) => self.aabb_collision(),
            _ => false,
        }
    }

    /// Whether two circles touch; of other shapes, no.
    fn circle_collision(&self) -> (r: bool)
        ensures
            r == (self.obj1.shape is Circle && self.obj2.shape is Circle && circles_touch(
                self.obj1,
                self.obj2,
            )),
    {
        if self.obj2.shape != Shape::Circle || self.obj1.shape != Shape::Circle {
            return false;
        }
        let distance: Scalar = self.obj1.vec.distance(self.obj2.vec);
        let radius1: Scalar = self.obj1.radius;
        let radius2: Scalar = self.obj2.radius;
        distance <= (radius1 + radius2)
    }

    /// Whether two boxes overlap.
    fn aabb_collision(&self) -> (r: bool)
        requires
            self.obj1.shape is AABB,
            self.obj2.shape is AABB,
        ensures
            r == in_contact(self.obj1, self.obj2),
    {
        let vec1 = self.obj1.shape.get_aabb();
        let vec2 = self.obj2.shape.get_aabb();
        vec1.0.x < vec2.1.x && vec1.1.x > vec2.0.x && vec1.0.y < vec2.1.y && vec1.1.y > vec2.0.y
    }
}

} // verus!
