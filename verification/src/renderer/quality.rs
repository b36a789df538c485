//! Quality levels and errors of the renderer.

use vstd::prelude::*;

verus! {

/// Shadow quality levels.
#[derive(Debug, Clone, Copy, PartialEq, Eq, Structural)]
pub enum ShadowQuality {
    Off,
    Low,
    Medium,
    High,
    Ultra,
}

/// Reflection quality levels.
#[derive(Debug, Clone, Copy, PartialEq, Eq, Structural)]
pub enum ReflectionQuality {
    Off,
    Probes,
    ScreenSpace,
    Hybrid,
    RayTraced,
}

/// Volumetric quality levels.
#[derive(Debug, Clone, Copy, PartialEq, Eq, Structural)]
pub enum VolumetricQuality {
    Off,
    Low,
    Medium,
    High,
}

/// Renderer errors.
#[derive(Debug)]
pub enum RendererError {
    /// GPU device creation failed.
    DeviceCreation(String),
    /// Surface creation failed.
    SurfaceCreation(String),
    /// Shader compilation failed.
    ShaderCompilation(String),
    /// Pipeline creation failed.
    PipelineCreation(String),
    /// A resource was not found.
    ResourceNotFound(String),
    /// The GPU is out of memory.
    OutOfMemory,
}

} // verus!
