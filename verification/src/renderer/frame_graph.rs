//! Frame graph: resources and passes of one frame.

use vstd::prelude::*;

verus! {

/// Identifier of a frame-graph resource.
#[derive(Debug, Clone, Copy, PartialEq, Eq, Hash, Structural)]
pub struct ResourceId(pub u32);

/// Identifier of a render pass.
#[derive(Debug, Clone, Copy, PartialEq, Eq, Hash, Structural)]
pub struct PassId(pub u32);

/// Kinds of frame-graph resources.
#[derive(Debug, Clone, Copy, PartialEq, Eq, Structural)]
pub enum ResourceType {
    Texture2D,
    DepthTexture,
    Buffer,
    RenderTarget,
}

/// Texture formats.
#[derive(Debug, Clone, Copy, PartialEq, Eq, Structural)]
pub enum TextureFormat {
    RGBA8,
    RGBA16F,
    RGBA32F,
    R8,
    R16F,
    R32F,
    RG8,
    RG16F,
    Depth24,
    Depth32F,
    Depth24Stencil8,
}

/// How a pass uses a resource.
#[derive(Debug, Clone, Copy, PartialEq, Eq, Structural)]
pub enum ResourceAccess {
    Read,
    Write,
    ReadWrite,
}

/// GPU queues.
#[derive(Debug, Clone, Copy, PartialEq, Eq, Structural)]
pub enum QueueType {
    Graphics,
    Compute,
    Transfer,
}

/// A resource of the frame graph.
#[derive(Debug, Clone)]
pub struct RenderResource {
    /// Identifier.
    pub id: ResourceId,
    /// Name for debugging.
    pub name: String,
    /// Kind of resource.
    pub resource_type: ResourceType,
    /// Size in pixels, where the resource has one.
    pub size: Option<(u32, u32)>,
    /// Format, where the resource is a texture.
    pub format: Option<TextureFormat>,
    /// Whether the resource lives for one frame only.
    pub transient: bool,
}

} // verus!
