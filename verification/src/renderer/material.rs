//! Materials: alpha modes, shader kinds and complexity classes.

use vstd::prelude::*;

verus! {

/// How a material treats alpha.
#[derive(Debug, Clone, Copy, PartialEq, Eq, Structural)]
pub enum AlphaMode {
    Opaque,
    Mask,
    Blend,
}

impl Default for AlphaMode {
    /// The default is `Opaque`.
    fn default() -> (v: AlphaMode)
        ensures
            v == AlphaMode::Opaque,
    {
        AlphaMode::Opaque
    }
}

/// The shader of a material.
#[derive(Debug, Clone, Copy, PartialEq, Eq, Structural)]
pub enum ShaderType {
    /// Physically based shading.
    Pbr,
    /// No lighting.
    Unlit,
    /// A custom shader, by its identifier.
    Custom(u32),
}

/// How costly a material is to shade.
#[derive(Debug, Clone, Copy, PartialEq, Eq, Structural)]
pub enum MaterialComplexity {
    Low,
    Medium,
    High,
    VeryHigh,
}

} // verus!
