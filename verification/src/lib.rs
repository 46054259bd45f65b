//! A fixed-point path tracer core: vector and color algebra, ray/triangle
//! intersection with per-object bounding-sphere culling, stochastic
//! hemisphere sampling, and the recursive light-transport integrator.
//!
//! Every scalar quantity is a fixed-point number: an `i64` holding `SCALE`
//! times its mathematical value. All arithmetic is exact integer arithmetic
//! with truncating division, so every contract below pins the computed value
//! down to the last bit.

pub mod color;
pub mod culling;
pub mod fixed;
pub mod object;
pub mod operation;
pub mod ray;
pub mod scene;
pub mod trig;
pub mod vector;
