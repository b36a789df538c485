//! Virtual texturing.

use vstd::prelude::*;

verus! {

/// Settings of virtual texturing.
#[derive(Debug, Clone)]
pub struct VirtualTextureConfig {
    /// Page size in pixels.
    pub page_size: u32,
    /// Size of the physical cache in pages.
    pub cache_size: u32,
    /// Highest mip level.
    pub max_mip: u32,
    /// Divisor of the feedback buffer's resolution.
    pub feedback_divisor: u32,
}

impl Default for VirtualTextureConfig {
    /// Pages of 128 pixels in a cache of 1024 pages.
    fn default() -> (c: VirtualTextureConfig)
        ensures
            c.page_size == 128,
            c.cache_size == 1024,
            c.max_mip == 12,
            c.feedback_divisor == 8,
    {
        VirtualTextureConfig { page_size: 128, cache_size: 1024, max_mip: 12, feedback_divisor: 8 }
    }
}

/// How urgently a texture is streamed in.
#[derive(Debug, Clone, Copy, PartialEq, Eq, PartialOrd, Ord, Structural)]
pub enum StreamingPriority {
    Low,
    Normal,
    High,
    Critical,
}

} // verus!
