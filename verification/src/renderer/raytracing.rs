//! Ray tracing: capabilities, effects and fallbacks.

use vstd::prelude::*;

verus! {

/// How much ray tracing the device can do.
#[derive(Debug, Clone, Copy, PartialEq, Eq, Structural)]
pub enum RtCapability {
    /// No ray tracing support.
    Unsupported,
    Basic,
    Full,
}

/// Effects that can be ray traced.
#[derive(Debug, Clone, Copy, PartialEq, Eq, Structural)]
pub enum RtEffect {
    Reflections,
    Shadows,
    AmbientOcclusion,
    GlobalIllumination,
}

/// Techniques that stand in where ray tracing is not used.
#[derive(Debug, Clone, Copy, PartialEq, Eq, Structural)]
pub enum FallbackMode {
    ScreenSpace,
    Probes,
    ShadowMaps,
    Off,
}

/// The reflection technique besides ray tracing: screen space where ray
/// tracing or screen-space reflections are available, probes otherwise.
pub open spec fn spec_reflection_fallback(rt_available: bool, ssr_available: bool) -> FallbackMode {
    if rt_available || ssr_available {
        FallbackMode::ScreenSpace
    } else {
        FallbackMode::Probes
    }
}

/// Reflection fallback chain.
pub fn reflection_fallback(rt_available: bool, ssr_available: bool) -> (mode: FallbackMode)
    ensures
        mode == spec_reflection_fallback(rt_available, ssr_available),
{
    if rt_available {
        FallbackMode::ScreenSpace
    } else if ssr_available {
        FallbackMode::ScreenSpace
    } else {
        FallbackMode::Probes
    }
}

/// Shadow fallback chain: shadow maps, with or without ray tracing.
pub fn shadow_fallback(rt_available: bool) -> (mode: FallbackMode)
    ensures
        mode == FallbackMode::ShadowMaps,
{
    if rt_available {
        FallbackMode::ShadowMaps
    } else {
        FallbackMode::ShadowMaps
    }
}

} // verus!
