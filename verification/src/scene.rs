//! A minimal model of the scene collaborator: an iterable collection of
//! entities, each of which may carry raw render data (geometry to upload)
//! and, once processed, a GPU render object. The engine reads and writes
//! only these two component kinds.

use vstd::prelude::*;

use crate::render_object::VulkanRenderObject;

verus! {

/// The raw geometry component an entity carries before upload: vertex bytes
/// and 32-bit index bytes.
pub struct RenderObject {
    /// Vertex data, `vertex_size` bytes per vertex.
    pub vertex_data: Vec<u8>,
    /// Size of one vertex in bytes.
    pub vertex_size: u64,
    /// Index data: 32-bit indices, four bytes each.
    pub index_data: Vec<u8>,
}

impl RenderObject {
    pub open spec fn wf(self) -> bool {
        &&& self.vertex_size >= 1
        &&& self.vertex_data@.len() % (self.vertex_size as nat) == 0
        &&& self.index_data@.len() % 4 == 0
    }
}

/// A scene entity, reduced to the two components the engine touches.
pub struct Entity {
    /// Raw geometry, present until and after upload.
    pub render_object: Option<RenderObject>,
    /// GPU-resident state, created lazily by the engine.
    pub vulkan_render_object: Option<VulkanRenderObject>,
}

/// The scene: an iterable collection of entities.
pub struct Scene {
    pub entities: Vec<Entity>,
}

} // verus!
