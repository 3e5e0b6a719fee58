//! Core of a vector-field particle visualizer.
//!
//! A fixed-size pool of point particles drifts through a static
//! three-dimensional vector field.  Each simulation tick integrates every
//! particle against the field, retires particles whose local field sample is
//! invalid or outside a magnitude band, respawns particles whose age has run
//! out, and compacts the survivors into a dense render buffer together with
//! camera-distance statistics.
//!
//! All quantities are fixed-point numbers: an `i64` counts millionths of a
//! unit (see [`fx::SCALE`]).  Rendering, windowing and UI are outside this
//! crate; callers feed in a parameter snapshot and a camera pose each tick
//! and read the render buffer back.

pub mod context;
pub mod engine;
pub mod field;
pub mod fx;
pub mod rng;
pub mod vec3;
