//! Archetype ECS: entities with the same set of component kinds share one archetype, which stores
//! each kind as a contiguous column aligned with its entity list.

pub mod archetype;
pub mod components;
pub mod storage;
pub mod world;

pub use archetype::Archetype;
pub use components::{CulledComponent, HierarchyComponent, RenderableComponent};
pub use storage::TypedVec;
pub use world::World;
