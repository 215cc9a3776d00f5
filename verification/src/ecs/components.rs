//! Plain component types of the engine.

use vstd::prelude::*;

use crate::ecs::storage::Entity;

verus! {

/// Parent / children links of an entity.
#[derive(Clone, Debug, Default)]
pub struct HierarchyComponent {
    pub parent: Option<Entity>,
    pub children: Vec<Entity>,
}

/// Tag component: marks a frustum-culled entity.
#[derive(Clone, Copy, Default, Debug)]
pub struct CulledComponent;

/// Mesh and material drawn for an entity, with its visibility and shadow flags.
#[derive(Clone, Debug)]
pub struct RenderableComponent {
    pub mesh_id: u32,
    pub material_id: u32,
    pub visible: bool,
    pub cast_shadow: bool,
    pub receive_shadow: bool,
}

impl RenderableComponent {
    /// A visible renderable that casts and receives shadows.
    pub fn new(mesh_id: u32, material_id: u32) -> (r: Self)
        ensures
            r.mesh_id == mesh_id,
            r.material_id == material_id,
            r.visible,
            r.cast_shadow,
            r.receive_shadow,
    {
        RenderableComponent { mesh_id, material_id, visible: true, cast_shadow: true, receive_shadow: true }
    }
}

} // verus!
