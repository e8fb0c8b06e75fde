//! Mesh bookkeeping shared with a rendering layer: which slice of an
//! index buffer a sub-mesh covers and which material it uses.

use vstd::prelude::*;

verus! {

/// One sub-mesh of a model: a named range of indices and the material
/// it is drawn with.
pub struct SubMeshData {
    pub name: String,
    pub index_offset: usize,
    pub index_count: usize,
    pub material: usize,
}

} // verus!
