//! A verified scene-resource compiler and frame planner for shader-driven
//! animated backgrounds.
//!
//! A scene is described declaratively: typed settings, GPU resource
//! declarations, and an ordered list of render/compute passes. This crate
//! validates the cross-references inside such a description, computes the
//! byte layout of setting-backed uniform buffers, and plans the uploads and
//! passes of each frame. The GPU device itself is driven by the caller from
//! the plans this crate produces.

pub mod buffer;
pub mod descriptor;
pub mod float_bits;
pub mod pass;
pub mod resource;
pub mod resources;
pub mod scene;
pub mod scene_ui;
pub mod setting;
pub mod settings;
pub mod util;
