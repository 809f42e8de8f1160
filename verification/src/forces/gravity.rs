//! Gravity along the y-axis.

use vstd::prelude::*;
use crate::arith::{difference, product, sum};
use crate::forces::force::Force;
use crate::obj::obj_2d::Object2d;
use crate::scalar::{Scalar, HALF_BITS};
use crate::vec::vec_2d::Vec2d;

verus! {

/// The pattern of the gravity of the Earth, 9.807 metres per second squared.
/// It is a size: a positive `force` pulls towards smaller y.
pub const EARTH_GRAVITY: u32 = 0x411c_e979;

/// Gravity of the size `force`, acting for the time step `delta_time`.
/// `time` is carried along and takes no part in the step.
#[derive(Debug)]
pub struct Gravity {
    pub force: Scalar,
    pub time: Scalar,
    pub delta_time: Scalar,
}

/// The height after one step under constant acceleration:
/// `y + (vy * dt - (1/2 * g) * (dt * dt))`, each step rounded.
pub open spec fn fallen(y: Scalar, vy: Scalar, g: Scalar, dt: Scalar) -> Scalar {
    sum(y, difference(product(vy, dt), product(product(Scalar { bits: HALF_BITS }, g), product(dt, dt))))
}

/// The body after one step of gravity: its height follows `fallen`, and its
/// upward speed loses `g * dt`. Nothing else changes.
pub open spec fn after_gravity(g: Gravity, obj: Object2d) -> Object2d {
    Object2d {
        vec: Vec2d { x: obj.vec.x, y: fallen(obj.vec.y, obj.velocity.y, g.force, g.delta_time) },
        velocity: Vec2d {
            x: obj.velocity.x,
            y: difference(obj.velocity.y, product(g.force, g.delta_time)),
        },
        ..obj
    }
}

impl Force for Gravity {
    open spec fn applied(&self, obj: Object2d) -> Object2d {
        after_gravity(*self, obj)
    }

    fn apply_2d(&self, obj: &mut Object2d)
        ensures
            *final(obj) == after_gravity(*self, *old(obj)),
    {
        let half: Scalar = Scalar::from_bits(HALF_BITS);
        let y: Scalar = obj.vec.y + (obj.velocity.y * self.delta_time - half * self.force * (
        self.delta_time * self.delta_time));
        let vy: Scalar = obj.velocity.y - self.force * self.delta_time;
        obj.vec.y = y;
        obj.velocity.y = vy;
    }
}

/// Gravity with the given size and times.
#[inline]
pub fn gravity(force: Scalar, time: Scalar, delta_time: Scalar) -> (r: Gravity)
    ensures
        r.force == force,
        r.time == time,
        r.delta_time == delta_time,
{
    Gravity { force, time, delta_time }
}

} // verus!
