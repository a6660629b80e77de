//! Core of a tile-based CPU ray tracer: the integer and decision logic of the
//! rendering pipeline, with machine-checked contracts.

pub mod animation;
pub mod driver;
pub mod encode;
pub mod loader;
pub mod renderer;
pub mod scene;
pub mod settings;
pub mod tiles;
