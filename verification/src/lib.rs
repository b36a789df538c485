//! Runtime core of the Odeza engine: an archetype-based entity/component
//! store and a priority- and dependency-aware job scheduler, together with
//! the small configuration types that the rest of the engine shares.

pub mod animation;
pub mod assets;
pub mod clock;
pub mod counting;
pub mod ecs;
pub mod editor;
pub mod job;
pub mod memory;
pub mod paths;
pub mod physics;
pub mod platform;
pub mod renderer;
pub mod tier;
pub mod time;

pub use ecs::{Component, Entity, World};
pub use job::{Job, JobHandle, JobSystem};
pub use tier::PerformanceTier;
