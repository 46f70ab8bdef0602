//! Soorat — rendering engine core logic.

pub mod acoustic_render;
pub mod animation;
pub mod batch;
pub mod capabilities;
pub mod color;
pub mod drm;
pub mod egui_bridge;
pub mod em_render;
pub mod error;
pub mod fluid_render;
pub mod lights;
pub mod lod;
pub mod pipeline;
pub mod postprocess;
pub mod primitives;
pub mod render_graph;
pub mod screenshot;
pub mod shadow;
pub mod sprite;
pub mod terrain;
pub mod text;
pub mod texture;
pub mod thermo_render;
pub mod window;
