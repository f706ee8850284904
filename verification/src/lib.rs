//! A small rigid-body physics engine for spherical bodies: swept
//! time-of-impact detection between moving spheres, earliest-collision
//! arbitration per body per step, and mass/restitution-based impulse
//! resolution with sub-step position advancement.
use vstd::prelude::*;

pub mod body;
pub mod laws;
pub mod num;
pub mod shapes;
pub mod sim;
pub mod vector;

verus! {

pub use crate::body::RigidBody;
pub use crate::num::Scalar;
pub use crate::shapes::Shape;
pub use crate::sim::Simulation;
pub use crate::vector::Vector;

} // verus!
