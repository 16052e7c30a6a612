use extrem::glb::{
    read_u16, read_u32, split_glb, Accessor, BufferView, GlbLayout, GltfImportError, CHUNK_BIN, CHUNK_JSON,
    GLB_MAGIC,
};

fn pad4(len: usize) -> usize {
    (4 - (len % 4)) % 4
}

fn build_glb(json: &str, bin: &[u8]) -> Vec<u8> {
    let mut json_bytes = json.as_bytes().to_vec();
    json_bytes.extend(std::iter::repeat_n(b' ', pad4(json_bytes.len())));
    let mut bin_bytes = bin.to_vec();
    bin_bytes.extend(std::iter::repeat_n(0u8, pad4(bin_bytes.len())));
    let total = 12 + 8 + json_bytes.len() + 8 + bin_bytes.len();
    let mut out = Vec::with_capacity(total);
    out.extend_from_slice(&GLB_MAGIC.to_le_bytes());
    out.extend_from_slice(&2u32.to_le_bytes());
    out.extend_from_slice(&(total as u32).to_le_bytes());
    out.extend_from_slice(&(json_bytes.len() as u32).to_le_bytes());
    out.extend_from_slice(&CHUNK_JSON.to_le_bytes());
    out.extend_from_slice(&json_bytes);
    out.extend_from_slice(&(bin_bytes.len() as u32).to_le_bytes());
    out.extend_from_slice(&CHUNK_BIN.to_le_bytes());
    out.extend_from_slice(&bin_bytes);
    out
}

#[test]
fn glb_split_returns_json_and_bin_chunks() {
    let glb = build_glb("{}", &[1, 2, 3]);
    let (json, bin) = split_glb(&glb).unwrap();
    assert_eq!(json, b"{}  ".to_vec());
    assert_eq!(bin, Some(vec![1, 2, 3, 0]));
}

#[test]
fn glb_framing_errors_are_reported_in_order() {
    assert_eq!(split_glb(b"short").unwrap_err(), GltfImportError::Truncated);
    assert_eq!(split_glb(b"nota glb file!!!!").unwrap_err(), GltfImportError::InvalidMagic);
    let mut wrong_version = build_glb("{}", &[]);
    wrong_version[4] = 1;
    assert_eq!(split_glb(&wrong_version).unwrap_err(), GltfImportError::UnsupportedVersion);
    let mut wrong_length = build_glb("{}", &[]);
    wrong_length.push(0);
    assert_eq!(split_glb(&wrong_length).unwrap_err(), GltfImportError::ChunkLayout);
    let mut truncated_chunk = build_glb("{}", &[]);
    truncated_chunk[12] = 200;
    assert_eq!(split_glb(&truncated_chunk).unwrap_err(), GltfImportError::Truncated);
}

#[test]
fn glb_requires_one_json_chunk_and_rejects_unknown_chunks() {
    let mut header_only = Vec::new();
    header_only.extend_from_slice(&GLB_MAGIC.to_le_bytes());
    header_only.extend_from_slice(&2u32.to_le_bytes());
    header_only.extend_from_slice(&12u32.to_le_bytes());
    assert_eq!(split_glb(&header_only).unwrap_err(), GltfImportError::ChunkLayout);

    let mut unknown = build_glb("{}", &[]);
    let type_offset = 12 + 8 + 4 + 4;
    unknown[type_offset..type_offset + 4].copy_from_slice(&7u32.to_le_bytes());
    assert_eq!(
        split_glb(&unknown).unwrap_err(),
        GltfImportError::Unsupported("unknown GLB chunk type")
    );

    let mut two_json = build_glb("{}", &[]);
    two_json[type_offset..type_offset + 4].copy_from_slice(&CHUNK_JSON.to_le_bytes());
    assert_eq!(split_glb(&two_json).unwrap_err(), GltfImportError::ChunkLayout);
}

#[test]
fn little_endian_reads_check_bounds() {
    let bytes = [0x34, 0x12, 0x78, 0x56];
    assert_eq!(read_u16(&bytes, 0), Ok(0x1234));
    assert_eq!(read_u32(&bytes, 0), Ok(0x5678_1234));
    assert_eq!(read_u16(&bytes, 3), Err(GltfImportError::Truncated));
    assert_eq!(read_u32(&bytes, 1), Err(GltfImportError::Truncated));
}

fn accessor(view: Option<usize>, component_type: u32, count: usize, element: &str) -> Accessor {
    Accessor {
        buffer_view: view,
        byte_offset: 0,
        component_type,
        count,
        element_type: element.to_owned(),
        normalized: false,
    }
}

#[test]
fn index_accessors_decode_each_component_type() {
    let bin = [0u8, 1, 2, 0, 1, 0, 2, 0, 0, 0, 1, 0, 0, 0, 2, 0, 0, 0];
    let layout = GlbLayout {
        accessors: vec![
            accessor(Some(0), 5121, 3, "SCALAR"),
            accessor(Some(1), 5123, 3, "SCALAR"),
            accessor(Some(2), 5125, 3, "SCALAR"),
        ],
        buffer_views: vec![
            BufferView { buffer: 0, byte_offset: 0, byte_length: 3, byte_stride: None },
            BufferView { buffer: 0, byte_offset: 2, byte_length: 6, byte_stride: None },
            BufferView { buffer: 0, byte_offset: 6, byte_length: 12, byte_stride: None },
        ],
    };
    assert_eq!(layout.read_indices(&bin, 0), Ok(vec![0, 1, 2]));
    assert_eq!(layout.read_indices(&bin, 1), Ok(vec![2, 1, 2]));
    assert_eq!(layout.read_indices(&bin, 2), Ok(vec![2, 1, 2]));
}

#[test]
fn index_accessor_errors_name_the_problem() {
    let bin = [0u8; 8];
    let layout = GlbLayout {
        accessors: vec![
            accessor(Some(0), 5123, 5, "SCALAR"),
            accessor(Some(0), 5123, 1, "VEC2"),
            accessor(None, 5123, 1, "SCALAR"),
            accessor(Some(9), 5123, 1, "SCALAR"),
            accessor(Some(0), 5126, 1, "SCALAR"),
            accessor(Some(0), 5126, 0, "SCALAR"),
        ],
        buffer_views: vec![BufferView { buffer: 0, byte_offset: 0, byte_length: 8, byte_stride: None }],
    };
    assert_eq!(layout.read_indices(&bin, 0), Err(GltfImportError::Truncated));
    assert_eq!(
        layout.read_indices(&bin, 1),
        Err(GltfImportError::Accessor("indices must be SCALAR".to_owned()))
    );
    assert_eq!(
        layout.read_indices(&bin, 2),
        Err(GltfImportError::Unsupported("accessor without bufferView"))
    );
    assert_eq!(
        layout.read_indices(&bin, 3),
        Err(GltfImportError::Accessor("indices bufferView 9 missing".to_owned()))
    );
    assert_eq!(
        layout.read_indices(&bin, 4),
        Err(GltfImportError::Unsupported("index component type"))
    );
    assert_eq!(layout.read_indices(&bin, 5), Ok(Vec::new()));
    assert_eq!(
        layout.read_indices(&bin, 6),
        Err(GltfImportError::Accessor("indices accessor 6 is missing".to_owned()))
    );
}

#[test]
fn element_stride_is_components_times_component_size() {
    assert_eq!(accessor(None, 5126, 1, "VEC3").element_stride(), Some(12));
    assert_eq!(accessor(None, 5121, 1, "VEC4").element_stride(), Some(4));
    assert_eq!(accessor(None, 5123, 1, "VEC2").element_stride(), Some(4));
    assert_eq!(accessor(None, 5120, 1, "SCALAR").element_stride(), Some(1));
    assert_eq!(accessor(None, 5126, 1, "MAT4").element_stride(), None);
    assert_eq!(accessor(None, 9999, 1, "VEC3").element_stride(), None);
}

#[test]
fn element_offsets_check_overflow_and_bounds() {
    assert_eq!(extrem::glb::element_offset(2, 12, 12, 36, "POSITION"), Ok(24));
    assert_eq!(extrem::glb::element_offset(3, 12, 12, 36, "POSITION"), Err(GltfImportError::Truncated));
    assert_eq!(
        extrem::glb::element_offset(usize::MAX, 2, 1, 10, "NORMAL"),
        Err(GltfImportError::Accessor("NORMAL stride overflow".to_string()))
    );
    assert_eq!(
        extrem::glb::element_offset(1, usize::MAX, 1, 10, "UV"),
        Err(GltfImportError::Accessor("UV element overflow".to_string()))
    );
}

#[test]
fn non_indexed_primitives_use_sequential_indices() {
    assert_eq!(extrem::glb::sequential_indices(6), Ok(vec![0, 1, 2, 3, 4, 5]));
    assert_eq!(
        extrem::glb::sequential_indices(4),
        Err(GltfImportError::Accessor("non-indexed vertex count is not a multiple of 3".to_string()))
    );
}
