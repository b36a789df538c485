//! Renderer configuration: the states, formats and quality levels that the
//! rest of the engine names.

pub mod frame_graph;
pub mod lighting;
pub mod material;
pub mod pipeline;
pub mod post;
pub mod quality;
pub mod raytracing;
pub mod texture;
pub mod volumetric;

pub use quality::{ReflectionQuality, RendererError, ShadowQuality, VolumetricQuality};
