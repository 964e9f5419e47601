//! Camera and view-transform math for a pannable, zoomable fractal viewer.
//!
//! All quantities are fixed-point numbers: an `i64` counts micro-units, so
//! `fixed::ONE` (1_000_000) stands for 1.0. The renderer converts these to
//! `f32` uniforms at the boundary.

pub mod fixed;
pub mod math;
pub mod frame;
pub mod view;
