//! Lighting: light kinds and clustering settings.

use vstd::prelude::*;

verus! {

/// Kinds of lights.
#[derive(Debug, Clone, Copy, PartialEq, Eq, Structural)]
pub enum LightType {
    Directional,
    Point,
    Spot,
    Area,
}

/// Settings of clustered lighting.
#[derive(Debug, Clone)]
pub struct LightingConfig {
    /// Maximum number of lights per cluster.
    pub max_lights_per_cluster: u32,
    /// Maximum number of lights that affect volumetrics.
    pub max_volumetric_lights: u32,
    /// Number of clusters along each axis.
    pub cluster_grid: [u32; 3],
    /// Whether clustered lighting is on.
    pub clustered: bool,
}

impl Default for LightingConfig {
    /// Thirty-two lights per cluster on a grid of 16 by 8 by 24.
    fn default() -> (c: LightingConfig)
        ensures
            c.max_lights_per_cluster == 32,
            c.max_volumetric_lights == 4,
            c.cluster_grid@ == seq![16u32, 8u32, 24u32],
            c.clustered,
    {
        LightingConfig {
            max_lights_per_cluster: 32,
            max_volumetric_lights: 4,
            cluster_grid: [16, 8, 24],
            clustered: true,
        }
    }
}

} // verus!
