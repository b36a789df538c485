//! Performance tiers.

use vstd::prelude::*;

verus! {

/// Performance tier for mobile and handheld devices.
#[derive(Debug, Clone, Copy, PartialEq, Eq, Hash, Structural)]
pub enum PerformanceTier {
    /// Phone baseline.
    Mobile,
    /// High-end phone or tablet.
    HighEnd,
    /// Handheld PC.
    HandheldPC,
}

impl Default for PerformanceTier {
    /// The default tier is `Mobile`.
    fn default() -> (t: PerformanceTier)
        ensures
            t == PerformanceTier::Mobile,
    {
        PerformanceTier::Mobile
    }
}

} // verus!
