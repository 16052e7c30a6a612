use extrem::gpu_mesh::{
    check_frame_draws, check_geometry, classify, validate_extent, visit_consecutive_batches, MeshError, ScopeError, MAX_FRAME_DRAWS, MAX_TARGET_PIXELS,
};
use extrem::texture::{TextureColorSpace, TextureData, TextureError, MAX_TEXTURE_BYTES, MAX_TEXTURE_DIMENSION};
use std::ops::Range;

fn collect(slots: &[usize]) -> (usize, Vec<(usize, Range<u32>)>) {
    let batches = visit_consecutive_batches(slots);
    (batches.len(), batches)
}

#[test]
fn empty_input_encodes_no_draws() {
    assert_eq!(collect(&[]), (0, Vec::new()));
}

#[test]
fn repeated_geometry_collapses_to_one_instanced_draw() {
    assert_eq!(collect(&[4, 4, 4]), (1, vec![(4, 0..3)]));
}

#[test]
fn separated_geometry_is_never_reordered_for_batching() {
    assert_eq!(
        collect(&[0, 1, 0, 0, 1]),
        (4, vec![(0, 0..1), (1, 1..2), (0, 2..4), (1, 4..5)])
    );
}

#[test]
fn maximal_consecutive_runs_keep_original_instance_ranges() {
    assert_eq!(
        collect(&[2, 2, 1, 1, 1, 2]),
        (3, vec![(2, 0..2), (1, 2..5), (2, 5..6)])
    );
}

#[test]
fn rgba8_extent_and_payload_must_match_exactly() {
    assert_eq!(
        TextureData::new_rgba8(0, 1, Vec::new(), TextureColorSpace::Linear).unwrap_err(),
        TextureError::InvalidExtent
    );
    assert_eq!(
        TextureData::new_rgba8(
            MAX_TEXTURE_DIMENSION + 1,
            1,
            Vec::new(),
            TextureColorSpace::Linear,
        )
        .unwrap_err(),
        TextureError::InvalidExtent
    );
    assert_eq!(
        TextureData::new_rgba8(2, 2, vec![0; 15], TextureColorSpace::Linear).unwrap_err(),
        TextureError::InvalidDataLength
    );
    let texture = TextureData::new_rgba8(2, 2, vec![0; 16], TextureColorSpace::Srgb).unwrap();
    assert_eq!(texture.width(), 2);
    assert_eq!(texture.height(), 2);
    assert_eq!(texture.payload_bytes(), 16);
    assert_eq!(texture.color_space(), TextureColorSpace::Srgb);
    assert!(MAX_TEXTURE_BYTES >= texture.payload_bytes());
}

#[test]
fn texels_are_addressed_row_major_from_the_top_left() {
    let texture = TextureData::new_rgba8(
        2,
        2,
        vec![
            255, 0, 0, 255, 0, 255, 0, 255, // top row
            0, 0, 255, 255, 255, 255, 255, 255, // bottom row
        ],
        TextureColorSpace::Linear,
    )
    .unwrap();
    assert_eq!(texture.texel(0, 0), [255, 0, 0, 255]);
    assert_eq!(texture.texel(1, 0), [0, 255, 0, 255]);
    assert_eq!(texture.texel(0, 1), [0, 0, 255, 255]);
    assert_eq!(texture.texel(1, 1), [255, 255, 255, 255]);
    assert_eq!(texture.rgba8().len(), 16);
    assert_eq!(TextureError::InvalidUv.message(), "texture/material input rejected: InvalidUv");
}

#[test]
fn full_size_texture_is_accepted_and_larger_extents_are_rejected() {
    let side = MAX_TEXTURE_DIMENSION;
    let texture = TextureData::new_rgba8(side, 1, vec![0; side as usize * 4], TextureColorSpace::Linear)
        .unwrap();
    assert_eq!(texture.payload_bytes(), side as usize * 4);
    assert_eq!(
        TextureData::new_rgba8(1, side + 1, Vec::new(), TextureColorSpace::Linear).unwrap_err(),
        TextureError::InvalidExtent
    );
}

#[test]
fn render_target_extents_are_bounded() {
    assert_eq!(validate_extent(1, 1, 1), Ok(()));
    assert_eq!(validate_extent(0, 1, 16), Err(MeshError::InvalidExtent));
    assert_eq!(validate_extent(17, 1, 16), Err(MeshError::InvalidExtent));
    assert_eq!(validate_extent(4096, 2048, 8192), Ok(()));
    assert_eq!(4096 * 2048, MAX_TARGET_PIXELS);
    assert_eq!(validate_extent(4096, 2049, 8192), Err(MeshError::InvalidExtent));
}

#[test]
fn geometry_checks_run_in_order() {
    assert_eq!(check_geometry(0, true, &[0, 1, 2]), Err(MeshError::EmptyGeometry));
    assert_eq!(check_geometry(3, true, &[]), Err(MeshError::EmptyGeometry));
    assert_eq!(check_geometry(1_000_001, true, &[0, 1, 2]), Err(MeshError::Capacity));
    assert_eq!(check_geometry(3, true, &[0, 1]), Err(MeshError::InvalidIndexCount));
    assert_eq!(check_geometry(3, false, &[0, 1, 3]), Err(MeshError::InvalidVertex));
    assert_eq!(check_geometry(3, true, &[0, 1, 3]), Err(MeshError::IndexOutOfBounds));
    assert_eq!(check_geometry(3, true, &[0, 1, 2]), Ok(()));
}

#[test]
fn typed_out_of_memory_takes_priority_over_consequent_validation_error() {
    let memory = ScopeError::OutOfMemory;
    let validation = ScopeError::Other("invalid resource after OOM".to_string());
    assert_eq!(classify([Some(memory), Some(validation), None]), Err(MeshError::OutOfMemory));
}

#[test]
fn internal_and_validation_errors_are_not_silently_successful() {
    let internal = ScopeError::Other("injected".to_string());
    assert!(matches!(classify([None, None, Some(internal)]), Err(MeshError::Gpu(_))));
    assert_eq!(classify([None, None, None]), Ok(()));
    assert_eq!(
        classify([None, Some(ScopeError::Other("validation".to_string())), Some(ScopeError::OutOfMemory)]),
        Err(MeshError::Gpu("validation".to_string()))
    );
}

#[test]
fn frame_count_and_extent_limits_are_checked_without_gpu_allocations() {
    assert_eq!(check_frame_draws(MAX_FRAME_DRAWS + 1), Err(MeshError::Capacity));
    assert_eq!(check_frame_draws(MAX_FRAME_DRAWS), Ok(()));
    for (w, h) in [(0, 1), (1, 0), (u32::MAX, 2), (4096, 4096)] {
        assert_eq!(validate_extent(w, h, 4096), Err(MeshError::InvalidExtent));
    }
    assert!(validate_extent(3840, 2160, 4096).is_ok());
    assert!(validate_extent(65, 49, 4096).is_ok());
}
