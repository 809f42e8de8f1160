//! What a force is.

use vstd::prelude::*;
use crate::obj::obj_2d::Object2d;

verus! {

/// A force acts on one body for one tick. All it does is change the body's
/// position and velocity: it reads and writes no other body, and leaves the
/// body's density, mass, acceleration, radius and shape as they are.
pub trait Force {
    /// The body after the force has acted on `obj`.
    spec fn applied(&self, obj: Object2d) -> Object2d;

    /// Lets the force act on `obj`.
    fn apply_2d(&self, obj: &mut Object2d)
        ensures
            *final(obj) == self.applied(*old(obj)),
            final(obj).density == old(obj).density,
            final(obj).mass == old(obj).mass,
            final(obj).acceleration == old(obj).acceleration,
            final(obj).radius == old(obj).radius,
            final(obj).shape == old(obj).shape,
    ;
}

} // verus!
