//! Entity component system: stable entity identity, type-erased component
//! cells, archetypes and the world that ties them together.

pub mod archetype;
pub mod entity;
pub mod laws;
pub mod erased;
pub mod row_index;
pub mod type_list;
pub mod world;

pub use entity::{ArchetypeId, Entity};
pub use erased::{Component, ErasedComponent};
pub use world::World;
