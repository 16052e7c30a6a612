//! Mesh handles, renderable-mesh components and the count and index checks of CPU meshes.
use crate::text::{decimal_text, u32_text};
use vstd::prelude::*;

verus! {

/// Maximum number of vertices per mesh.
pub const MAX_VERTICES: u32 = 1_000_000;

/// Maximum number of indices per mesh.
pub const MAX_INDICES: u32 = 3_000_000;

/// Errors that can occur when constructing or validating meshes.
#[derive(Clone, Copy, Debug, PartialEq, Eq, Structural)]
pub enum MeshError {
    TooManyVertices { count: u32, max: u32 },
    TooManyIndices { count: u32, max: u32 },
    InvalidIndex { index: u32, vertex_count: u32 },
    NonFinitePosition { vertex: u32 },
    NonFiniteNormal { vertex: u32 },
    NonFiniteUv { vertex: u32 },
}

pub open spec fn nat_text(n: u32) -> Seq<char> {
    decimal_text(n as nat)
}

impl MeshError {
    pub open spec fn text(self) -> Seq<char> {
        match self {
            MeshError::TooManyVertices { count, max } => "mesh has "@ + nat_text(count) + " vertices, exceeding limit of "@
                + nat_text(max),
            MeshError::TooManyIndices { count, max } => "mesh has "@ + nat_text(count) + " indices, exceeding limit of "@
                + nat_text(max),
            MeshError::InvalidIndex { index, vertex_count } => "index "@ + nat_text(index)
                + " references non-existent vertex (only "@ + nat_text(vertex_count) + " vertices)"@,
            MeshError::NonFinitePosition { vertex } => "vertex "@ + nat_text(vertex) + " has non-finite position"@,
            MeshError::NonFiniteNormal { vertex } => "vertex "@ + nat_text(vertex) + " has non-finite normal"@,
            MeshError::NonFiniteUv { vertex } => "vertex "@ + nat_text(vertex) + " has non-finite uv"@,
        }
    }

    /// Stable user-facing message.
    pub fn message(&self) -> (s: String)
        ensures
            s@ == self.text(),
    {
        match *self {
            MeshError::TooManyVertices { count, max } => {
                let mut s = String::from_str("mesh has ");
                s.append(u32_text(count).as_str());
                s.append(" vertices, exceeding limit of ");
                s.append(u32_text(max).as_str());
                s
            },
            MeshError::TooManyIndices { count, max } => {
                let mut s = String::from_str("mesh has ");
                s.append(u32_text(count).as_str());
                s.append(" indices, exceeding limit of ");
                s.append(u32_text(max).as_str());
                s
            },
            MeshError::InvalidIndex { index, vertex_count } => {
                let mut s = String::from_str("index ");
                s.append(u32_text(index).as_str());
                s.append(" references non-existent vertex (only ");
                s.append(u32_text(vertex_count).as_str());
                s.append(" vertices)");
                s
            },
            MeshError::NonFinitePosition { vertex } => {
                let mut s = String::from_str("vertex ");
                s.append(u32_text(vertex).as_str());
                s.append(" has non-finite position");
                s
            },
            MeshError::NonFiniteNormal { vertex } => {
                let mut s = String::from_str("vertex ");
                s.append(u32_text(vertex).as_str());
                s.append(" has non-finite normal");
                s
            },
            MeshError::NonFiniteUv { vertex } => {
                let mut s = String::from_str("vertex ");
                s.append(u32_text(vertex).as_str());
                s.append(" has non-finite uv");
                s
            },
        }
    }
}

/// Position of the first index that does not name one of `vertex_count` vertices.
pub open spec fn first_bad_index(indices: Seq<u32>, vertex_count: int) -> Option<int> {
    if exists|i: int| 0 <= i < indices.len() && indices[i] >= vertex_count {
        Some(choose|i: int| 0 <= i < indices.len() && indices[i] >= vertex_count && forall|j: int| 0 <= j < i ==> indices[j] < vertex_count)
    } else {
        None
    }
}

/// Why a mesh of `vertex_count` vertices and these indices is rejected, if it is.
pub open spec fn parts_check(vertex_count: int, indices: Seq<u32>) -> Option<MeshError> {
    if vertex_count > MAX_VERTICES {
        Some(MeshError::TooManyVertices { count: vertex_count as u32, max: MAX_VERTICES })
    } else if indices.len() > MAX_INDICES {
        Some(MeshError::TooManyIndices { count: indices.len() as u32, max: MAX_INDICES })
    } else {
        match first_bad_index(indices, vertex_count) {
            Some(i) => Some(MeshError::InvalidIndex { index: indices[i], vertex_count: vertex_count as u32 }),
            None => None,
        }
    }
}

/// Count limits, then every index naming an existing vertex; the first bad index is reported.
pub fn check_parts(vertex_count: usize, indices: &[u32]) -> (r: Result<(), MeshError>)
    ensures
        match parts_check(vertex_count as int, indices@) {
            Some(e) => r == Err::<(), MeshError>(e),
            None => r is Ok,
        },
{
    if vertex_count > MAX_VERTICES as usize {
        return Err(MeshError::TooManyVertices { count: vertex_count as u32, max: MAX_VERTICES });
    }
    if indices.len() > MAX_INDICES as usize {
        return Err(MeshError::TooManyIndices { count: indices.len() as u32, max: MAX_INDICES });
    }
    let mut i: usize = 0;
    while i < indices.len()
        invariant
            i <= indices@.len(),
            vertex_count <= MAX_VERTICES,
            indices@.len() <= MAX_INDICES,
            forall|k: int| 0 <= k < i ==> indices@[k] < vertex_count,
        decreases indices@.len() - i,
    {
        let index = indices[i];
        if index as usize >= vertex_count {
            proof {
                let w = choose|w: int| 0 <= w < indices@.len() && indices@[w] >= vertex_count && forall|j: int|
                    0 <= j < w ==> indices@[j] < vertex_count;
                assert(0 <= i < indices@.len() && indices@[i as int] >= vertex_count && forall|j: int|
                    0 <= j < i ==> indices@[j] < vertex_count);
                if w < i {
                    assert(indices@[w] < vertex_count);
                } else if w > i {
                    assert(indices@[i as int] < vertex_count);
                }
            }
            return Err(MeshError::InvalidIndex { index, vertex_count: vertex_count as u32 });
        }
        i = i + 1;
    }
    Ok(())
}

/// A handle to a GPU-resident mesh.
#[derive(Clone, Copy, Debug, PartialEq, Eq, Hash, Structural)]
pub struct MeshHandle(pub u32);

/// A handle to a material.
#[derive(Clone, Copy, Debug, PartialEq, Eq, Hash, Structural)]
pub struct MaterialHandle(pub u32);

/// Renderable mesh component: associates an entity with a mesh and material.
#[derive(Clone, Copy, Debug, PartialEq, Eq, Structural)]
pub struct RenderableMesh {
    pub mesh: MeshHandle,
    pub material: MaterialHandle,
}

impl RenderableMesh {
    pub fn new(mesh: MeshHandle, material: MaterialHandle) -> (r: Self)
        ensures
            r.mesh == mesh,
            r.material == material,
    {
        RenderableMesh { mesh, material }
    }
}

} // verus!
