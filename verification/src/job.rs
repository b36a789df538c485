//! Job system: a scheduler that runs submitted jobs by priority, in
//! submission order within a priority, and never before their dependencies
//! have completed; and a builder for graphs of dependent tasks.

pub mod graph;
pub mod handle;
pub mod laws;
pub mod priority;
pub mod queue;
pub mod system;
pub mod task;

pub use graph::TaskGraphBuilder;
pub use handle::JobHandle;
pub use priority::JobPriority;
pub use system::JobSystem;
pub use task::{Job, JobOutcome, JobState};
