//! A small offline ray tracer over fixed-point arithmetic.
//!
//! Every number is a [`scalar::Scalar`]: a signed fixed-point value with 32
//! fractional bits whose operations saturate instead of overflowing, so that
//! every function of the crate is total. Where a clamped result would lead
//! astray, the work is done otherwise: a sphere is intersected over wide
//! values that are never clamped, and a vector is leveled before it is
//! brought to unit length. A result is an exact function of the arguments,
//! but for what is drawn from the random source: of a draw the contracts
//! state the range, and what is computed from it.

pub mod camera;
pub mod color;
pub mod constants;
pub mod hittable;
pub mod interval;
pub mod ppm;
pub mod ray;
pub mod rounding;
pub mod scalar;
pub mod text;
pub mod vec3;
pub mod wide;
