//! Job priorities.

use vstd::prelude::*;

verus! {

/// Number of priority levels.
pub const PRIORITY_LEVELS: usize = 4;

/// Job priority levels, from the least to the most urgent.
#[derive(Debug, Clone, Copy, PartialEq, Eq, PartialOrd, Ord, Hash, Structural)]
pub enum JobPriority {
    /// Low priority background tasks.
    Low,
    /// Normal priority tasks.
    Normal,
    /// High priority tasks (render-critical).
    High,
    /// Critical tasks (must complete this frame).
    Critical,
}

impl JobPriority {
    /// The rank of a priority: 0 for `Low` up to 3 for `Critical`.
    pub open spec fn spec_rank(self) -> int {
        match self {
            JobPriority::Low => 0,
            JobPriority::Normal => 1,
            JobPriority::High => 2,
            JobPriority::Critical => 3,
        }
    }

    /// The rank of a priority: 0 for `Low` up to 3 for `Critical`.
    pub fn rank(self) -> (r: usize)
        ensures
            r == self.spec_rank(),
            r < PRIORITY_LEVELS,
    {
        match self {
            JobPriority::Low => 0,
            JobPriority::Normal => 1,
            JobPriority::High => 2,
            JobPriority::Critical => 3,
        }
    }

}

impl Default for JobPriority {
    /// The default priority is `Normal`.
    fn default() -> (p: JobPriority)
        ensures
            p == JobPriority::Normal,
    {
        JobPriority::Normal
    }
}

} // verus!
