//! A 2D rigid-body physics engine with verified fixed-point arithmetic.
//!
//! Positions, velocities and masses are integrated forward in time with
//! semi-implicit Verlet steps, colliding circles are detected and separated,
//! and bodies can be connected by stiff distance joints or damped springs,
//! all under fixed-radius boundary constraints.  Every scalar is a signed
//! 64-bit fixed-point number, so each pass of the integrator has an exact
//! arithmetic specification.

pub mod aabb;
pub mod arena;
pub mod debug;
pub mod body;
pub mod collider;
pub mod events;
pub mod joints;
pub mod physics;
pub mod fx;
pub mod groups;
pub mod spatial;
pub mod springs;
pub mod vec2;
