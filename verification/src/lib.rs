//! A narrow-phase collision engine for convex primitives.
//!
//! The engine tests a pair of shapes — spheres and oriented boxes — for
//! overlap and, when they overlap, returns a minimum-translation vector
//! (MTV) along the axis of least penetration.  All geometry is carried in
//! fixed-point integers (see [`num::ONE`]), so every result is an exact,
//! fully specified function of the inputs.
//!
//! Sign convention: add the returned vector to the first shape's position,
//! or subtract it from the second's, to resolve the overlap.

pub mod collision;
pub mod laws;
pub mod num;
pub mod render;
pub mod shapes;
pub mod trig;
pub mod vec3;
