//! A tile-based work-distribution engine for a parallel image renderer.
//!
//! An image is decomposed into fixed-size rectangular blocks; a block
//! manager hands blocks out under a concurrency ceiling, and a renderer
//! moves them through bounded queues from submission to completion,
//! with cooperative cancellation.

pub mod blocks;
pub mod channel;
pub mod color;
pub mod geometry;
pub mod laws;
pub mod render;
pub mod rng;
