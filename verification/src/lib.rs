//! A verified render-graph core.
//!
//! A declarative description of GPU work (render passes, a present operation,
//! and the resources they touch) is compiled once into a concrete execution
//! schedule together with the resource-state transitions that must run between
//! nodes, and is then replayed every frame: each pipeline's `prepare` uploads
//! per-frame data, its `draw` records commands, and the terminal present node
//! hands the finished color resource to the surface.
//!
//! Windowing, shader compilation and image decoding are outside collaborators:
//! the core consumes their outputs as plain values (reflected layouts, decoded
//! pixel data) and never reimplements them.

pub mod descriptor;
pub mod driver;
pub mod encoder;
pub mod error;
pub mod graph;
pub mod pipeline;
pub mod resource;
pub mod node;
pub mod schedule;
pub mod transition;
