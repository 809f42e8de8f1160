//! Movement along one axis.

use vstd::prelude::*;
use crate::arith::{product, sum};
use crate::forces::force::Force;
use crate::obj::obj_2d::Object2d;
use crate::scalar::{Scalar, HALF_BITS};
use crate::vec::vec_2d::Vec2d;

verus! {

/// An axis of the plane.
#[derive(Debug, PartialEq, Eq, Structural, Clone, Copy)]
pub enum Direction2d {
    /// Movement along the x-axis.
    X,
    /// Movement along the y-axis.
    Y,
}

/// Movement along `direction` for the time `fps * delta_time`.
pub struct Move2d {
    pub direction: Direction2d,
    pub delta_time: Scalar,
    pub fps: Scalar,
}

/// A coordinate after the time `t`: `(p + v * t) + (1/2 * a) * (t * t)`, each
/// step rounded.
pub open spec fn moved(p: Scalar, v: Scalar, a: Scalar, t: Scalar) -> Scalar {
    sum(sum(p, product(v, t)), product(product(Scalar { bits: HALF_BITS }, a), product(t, t)))
}

/// The body after the movement: the coordinate of the chosen axis follows
/// `moved` with the velocity and acceleration of that axis. The other
/// coordinate, the velocity and the acceleration stay as they are.
pub open spec fn after_move(m: Move2d, obj: Object2d) -> Object2d {
    let time = product(m.fps, m.delta_time);
    match m.direction {
        Direction2d::Y => Object2d {
            vec: Vec2d {
                x: obj.vec.x,
                y: moved(obj.vec.y, obj.velocity.y, obj.acceleration.y, time),
            },
            ..obj
        },
        Direction2d::X => Object2d {
            vec: Vec2d {
                x: moved(obj.vec.x, obj.velocity.x, obj.acceleration.x, time),
                y: obj.vec.y,
            },
            ..obj
        },
    }
}

impl Force for Move2d {
    open spec fn applied(&self, obj: Object2d) -> Object2d {
        after_move(*self, obj)
    }

    fn apply_2d(&self, obj: &mut Object2d)
        ensures
            *final(obj) == after_move(*self, *old(obj)),
    {
        let half: Scalar = Scalar::from_bits(HALF_BITS);
        let time: Scalar = self.fps * self.delta_time;
        match self.direction {
            Direction2d::Y => {
                let y: Scalar = obj.vec.y + obj.velocity.y * time + half * obj.acceleration.y * (time
                    * time);
                obj.vec.y = y;
            },
            Direction2d::X => {
                let x: Scalar = obj.vec.x + obj.velocity.x * time + half * obj.acceleration.x * (time
                    * time);
                obj.vec.x = x;
            },
        }
    }
}

/// Movement along `direction` with the given time step and frame rate.
#[inline]
pub fn move2d(direction: Direction2d, delta_time: Scalar, fps: Scalar) -> (r: Move2d)
    ensures
        r.direction == direction,
        r.delta_time == delta_time,
        r.fps == fps,
{
    Move2d { direction, delta_time, fps }
}

} // verus!
