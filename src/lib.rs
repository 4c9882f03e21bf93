//! A particle field that drifts through a sampled vector field and is drawn into an RGBA canvas.
//!
//! Coordinates are fixed-point numbers: `fixed::ONE` stands for 1.0.
pub mod fixed;
pub mod color;
pub mod random;
pub mod sampler;
pub mod particles;
pub mod grid;
pub mod laws;
