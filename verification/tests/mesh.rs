use extrem::mesh::{check_parts, MaterialHandle, MeshError, MeshHandle, RenderableMesh, MAX_INDICES, MAX_VERTICES};

#[test]
fn renderable_mesh_constructs() {
    let renderable = RenderableMesh::new(MeshHandle(1), MaterialHandle(2));
    assert_eq!(renderable.mesh, MeshHandle(1));
    assert_eq!(renderable.material, MaterialHandle(2));
}

#[test]
fn mesh_validation_rejects_invalid_index() {
    assert_eq!(
        check_parts(3, &[0, 1, 5]),
        Err(MeshError::InvalidIndex { index: 5, vertex_count: 3 })
    );
    assert_eq!(
        check_parts(3, &[7, 1, 5]),
        Err(MeshError::InvalidIndex { index: 7, vertex_count: 3 })
    );
    assert_eq!(check_parts(3, &[0, 1, 2]), Ok(()));
}

#[test]
fn mesh_count_limits() {
    assert_eq!(
        check_parts(MAX_VERTICES as usize + 1, &[]),
        Err(MeshError::TooManyVertices { count: MAX_VERTICES + 1, max: MAX_VERTICES })
    );
    let indices = vec![0u32; MAX_INDICES as usize + 1];
    assert_eq!(
        check_parts(1, &indices),
        Err(MeshError::TooManyIndices { count: MAX_INDICES + 1, max: MAX_INDICES })
    );
}

#[test]
fn mesh_error_messages_are_stable() {
    assert_eq!(
        MeshError::InvalidIndex { index: 5, vertex_count: 3 }.message(),
        "index 5 references non-existent vertex (only 3 vertices)"
    );
    assert_eq!(
        MeshError::TooManyVertices { count: 12, max: 10 }.message(),
        "mesh has 12 vertices, exceeding limit of 10"
    );
    assert_eq!(MeshError::NonFiniteUv { vertex: 0 }.message(), "vertex 0 has non-finite uv");
}
