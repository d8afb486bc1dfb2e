use vstd::prelude::*;

verus! {

/// A handle to the buffers of a mesh in the mesh buffer pool: its slot there.
#[derive(Clone, Copy, PartialEq, Eq, Structural, Debug)]
pub struct MeshBufferReference {
    pub index: u32,
}

/// A handle to a material in the material pool: its slot there.
#[derive(Clone, Copy, PartialEq, Eq, Structural, Debug)]
pub struct MaterialReference {
    pub index: u32,
}

/// What an entity draws: the buffers of a mesh, with a material.
#[derive(Clone, Copy)]
pub struct Mesh {
    pub mesh_buffer_reference: MeshBufferReference,
    pub material_reference: MaterialReference,
}

} // verus!
