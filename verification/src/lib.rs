//! Escape-time fractal rendering core: pixel color packing and palettes,
//! lane-batched iteration counting, and a chunked, order-preserving frame
//! renderer.
//!
//! Everything that decides what a frame looks like lives here with a
//! contract. Floating-point sample arithmetic (the complex plane itself)
//! is supplied by callers through the [`render::FnSync`] and
//! [`rules::IterationRule`] capabilities.

pub mod color;
pub mod render;
pub mod rules;
pub mod simd;
pub mod utils;
