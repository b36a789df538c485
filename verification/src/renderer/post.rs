//! Post-processing: tone mappers.

use vstd::prelude::*;

verus! {

/// Tone-mapping operators.
#[derive(Debug, Clone, Copy, PartialEq, Eq, Structural)]
pub enum ToneMapper {
    ACES,
    Reinhard,
    Uncharted2,
    AgX,
    Neutral,
}

impl Default for ToneMapper {
    /// The default is `ACES`.
    fn default() -> (v: ToneMapper)
        ensures
            v == ToneMapper::ACES,
    {
        ToneMapper::ACES
    }
}

} // verus!
