//! Volumetric lighting and fog.

use vstd::prelude::*;

verus! {

/// Shapes of a local volume.
#[derive(Debug, Clone, Copy, PartialEq, Eq, Structural)]
pub enum VolumeType {
    Box,
    Sphere,
    Capsule,
}

/// How a local volume blends with the global fog.
#[derive(Debug, Clone, Copy, PartialEq, Eq, Structural)]
pub enum VolumeBlendMode {
    Additive,
    Override,
    Multiply,
}

impl Default for VolumeBlendMode {
    /// The default is `Additive`.
    fn default() -> (v: VolumeBlendMode)
        ensures
            v == VolumeBlendMode::Additive,
    {
        VolumeBlendMode::Additive
    }
}

/// Quality of volumetric shadows.
#[derive(Debug, Clone, Copy, PartialEq, Eq, Structural)]
pub enum VolumetricShadowQuality {
    Off,
    Low,
    Medium,
    High,
}

impl VolumetricShadowQuality {
    /// The number of shadow rays of each quality, as a mathematical value.
    pub open spec fn spec_ray_count(self) -> u32 {
        match self {
            VolumetricShadowQuality::Off => 0,
            VolumetricShadowQuality::Low => 4,
            VolumetricShadowQuality::Medium => 8,
            VolumetricShadowQuality::High => 16,
        }
    }

    /// Get shadow ray count.
    pub fn ray_count(&self) -> (n: u32)
        ensures
            n == self.spec_ray_count(),
    {
        match self {
            VolumetricShadowQuality::Off => 0,
            VolumetricShadowQuality::Low => 4,
            VolumetricShadowQuality::Medium => 8,
            VolumetricShadowQuality::High => 16,
        }
    }
}

} // verus!
