//! A minimal, allocation-free 2D kinematics and collision core.
//!
//! The host builds bodies and forces, lets the forces act once per tick, asks
//! whether two bodies are in contact, and resolves the contact as an elastic
//! collision. The ticks come from a schedule that alternates a step and a
//! sleep at a fixed frame rate.
//!
//! Numbers are binary32 scalars held as bit patterns (`scalar`). Their
//! arithmetic is done in integers and rounds to nearest, ties to even
//! (`rounding`, `pack`, `arith`); their order is that of the numbers they stand
//! for (`order`). On top of them stand the kernels (`formulas`), vectors
//! (`vec`), bodies (`obj`), forces (`forces`), contact (`collision`) and the
//! schedule (`event_loop`). `laws` holds what is true of these whatever they
//! are given.

pub mod arith;
pub mod collision;
pub mod event_loop;
pub mod forces;
pub mod formulas;
pub mod laws;
pub mod obj;
pub mod order;
pub mod pack;
pub mod rounding;
pub mod scalar;
pub mod vec;
