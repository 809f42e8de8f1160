//! The collision geometry of a body.

use vstd::prelude::*;
use vstd::std_specs::cmp::PartialEqSpecImpl;
use crate::vec::vec_2d::{Vec2d, same_point};

verus! {

/// The shapes a body can have.
#[derive(Debug, Clone, Copy)]
pub enum Shape {
    /// No geometry: such a body collides with nothing.
    Empty,
    /// A circle around the body's position; the radius is the body's.
    Circle,
    /// An axis-aligned box, by its corner of least and its corner of greatest
    /// coordinates. Nothing here keeps the first below the second.
    AABB(Vec2d, Vec2d),
}

/// Two shapes are the same kind and, for boxes, have equal corners.
pub open spec fn same_shape(a: Shape, b: Shape) -> bool {
    match (a, b) {
        (Shape::Empty, Shape::Empty) => true,
        (Shape::Circle, Shape::Circle) => true,
        (Shape::AABB(min1, max1), Shape::AABB(min2, max2)) => same_point(min1, min2) && same_point(
            max1,
            max2,
        ),
        _ => false,
    }
}

impl PartialEqSpecImpl for Shape {
    open spec fn obeys_eq_spec() -> bool {
        true
    }

    open spec fn eq_spec(&self, other: &Shape) -> bool {
        same_shape(*self, *other)
    }
}

impl PartialEq for Shape {
    fn eq(&self, other: &Shape) -> (r: bool)
        ensures
            r == same_shape(*self, *other),
    {
        match (self, other) {
            (Shape::Empty, Shape::Empty) => true,
            (Shape::Circle, Shape::Circle) => true,
            (Shape::AABB(min1, max1), Shape::AABB(min2, max2)) => *min1 == *min2 && *max1 == *max2,
            _ => false,
        }
    }
}

impl Shape {
    /// The two corners of a box. To ask this of another shape is a mistake of
    /// the caller.
    #[must_use]
    pub fn get_aabb(&self) -> (r: (Vec2d, Vec2d))
        requires
            self is AABB,
        ensures
            *self == Shape::AABB(r.0, r.1),
    {
        match self {
            Shape::AABB(v1, v2) => (*v1, *v2),
            _ => vstd::pervasive::unreached(),
        }
    }
}

} // verus!
