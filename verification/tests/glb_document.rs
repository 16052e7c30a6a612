use extrem::glb::{split_glb, GltfImportError};
use extrem::glb_document::{
    check_primitive, parse_accessor, parse_buffer, parse_buffer_view, parse_mesh, parse_primitive,
    validate_root, Attributes, GlbDocument, Primitive, MODE_TRIANGLES,
};
use extrem::glb_import::{parse_glb_document, MAX_GLB_BYTES};
use extrem::json::JsonValue;
use serde_json::Value;

fn pad4(len: usize) -> usize {
    (4 - (len % 4)) % 4
}

fn build_glb(json: &str, bin: &[u8]) -> Vec<u8> {
    let mut json_bytes = json.as_bytes().to_vec();
    json_bytes.extend(std::iter::repeat_n(b' ', pad4(json_bytes.len())));
    let mut bin_bytes = bin.to_vec();
    bin_bytes.extend(std::iter::repeat_n(0u8, pad4(bin_bytes.len())));
    let total = 12 + 8 + json_bytes.len() + 8 + bin_bytes.len();
    let mut out = Vec::with_capacity(total);
    out.extend_from_slice(&0x4654_6C67u32.to_le_bytes());
    out.extend_from_slice(&2u32.to_le_bytes());
    out.extend_from_slice(&(total as u32).to_le_bytes());
    out.extend_from_slice(&(json_bytes.len() as u32).to_le_bytes());
    out.extend_from_slice(&0x4E4F_534Au32.to_le_bytes());
    out.extend_from_slice(&json_bytes);
    out.extend_from_slice(&(bin_bytes.len() as u32).to_le_bytes());
    out.extend_from_slice(&0x004E_4942u32.to_le_bytes());
    out.extend_from_slice(&bin_bytes);
    out
}

fn document_value(value: &Value) -> JsonValue {
    match value {
        Value::Null => JsonValue::Null,
        Value::Bool(flag) => JsonValue::Bool(*flag),
        Value::Number(number) => match number.as_u64() {
            Some(n) => JsonValue::UInt(n),
            None => JsonValue::OtherNumber,
        },
        Value::String(text) => JsonValue::Str(text.clone()),
        Value::Array(items) => JsonValue::Array(items.iter().map(document_value).collect()),
        Value::Object(members) => JsonValue::Object(
            members
                .iter()
                .map(|(key, member)| (key.clone(), document_value(member)))
                .collect(),
        ),
    }
}

fn parse_json(text: &str) -> JsonValue {
    let value: Value = serde_json::from_str(text).unwrap();
    document_value(&value)
}

fn triangle_bin() -> Vec<u8> {
    let mut bin = Vec::new();
    for position in [[0.0f32, 0.0, 0.0], [1.0, 0.0, 0.0], [0.0, 1.0, 0.0]] {
        for component in position {
            bin.extend_from_slice(&component.to_le_bytes());
        }
    }
    for index in [0u16, 1, 2] {
        bin.extend_from_slice(&index.to_le_bytes());
    }
    bin
}

const TRIANGLE_JSON: &str = r#"{
  "asset":{"version":"2.0"},
  "meshes":[{"name":"tri","primitives":[{"attributes":{"POSITION":0},"indices":1,"material":0}]}],
  "accessors":[
    {"bufferView":0,"componentType":5126,"count":3,"type":"VEC3","max":[1,1,0],"min":[0,0,0]},
    {"bufferView":1,"componentType":5123,"count":3,"type":"SCALAR"}
  ],
  "bufferViews":[
    {"buffer":0,"byteOffset":0,"byteLength":36},
    {"buffer":0,"byteOffset":36,"byteLength":6}
  ],
  "buffers":[{"byteLength":42}],
  "materials":[{"pbrMetallicRoughness":{"baseColorFactor":[0.2,0.4,0.6,1.0]}}]
}"#;

#[test]
fn document_of_indexed_triangle_reads_mesh_layout_and_indices() {
    let glb = build_glb(TRIANGLE_JSON, &triangle_bin());
    let (json, bin) = split_glb(&glb).unwrap();
    let root = parse_json(std::str::from_utf8(&json).unwrap());
    assert_eq!(validate_root(&root), Ok(()));
    let document = GlbDocument::parse(&root).unwrap();
    assert_eq!(document.meshes.len(), 1);
    assert_eq!(document.meshes[0].name.as_deref(), Some("tri"));
    let primitive = document.meshes[0].primitives[0];
    assert_eq!(primitive.attributes.position, Some(0));
    assert_eq!(primitive.attributes.normal, None);
    assert_eq!(primitive.indices, Some(1));
    assert_eq!(primitive.material, Some(0));
    assert_eq!(primitive.mode, MODE_TRIANGLES);
    assert_eq!(check_primitive(&primitive), Ok(0));
    assert_eq!(document.layout.accessors.len(), 2);
    assert_eq!(document.layout.accessors[0].element_type, "VEC3");
    assert_eq!(document.layout.accessors[1].component_type, 5123);
    assert_eq!(document.layout.buffer_views[1].byte_offset, 36);
    assert_eq!(document.layout.buffer_views[1].byte_length, 6);
    assert_eq!(document.buffers[0].byte_length, 42);
    let chunk = bin.unwrap();
    assert_eq!(chunk.len(), 44);
    let selected = document.select_bin(Some(&chunk)).unwrap();
    assert_eq!(selected.len(), 42);
    assert_eq!(selected, &chunk[..42]);
    assert_eq!(document.layout.read_indices(selected, 1), Ok(vec![0, 1, 2]));
}

#[test]
fn document_root_rejects_skins_and_required_extensions() {
    let skinned = parse_json(
        r#"{"asset":{"version":"2.0"},"skins":[{"joints":[0]}],
            "meshes":[{"primitives":[{"attributes":{"POSITION":0}}]}],
            "buffers":[{"byteLength":36}]}"#,
    );
    assert_eq!(validate_root(&skinned), Err(GltfImportError::Unsupported("skins")));
    let extended = parse_json(
        r#"{"asset":{"version":"2.0"},"extensionsRequired":["KHR_draco_mesh_compression"],
            "skins":[{"joints":[0]}]}"#,
    );
    assert_eq!(
        validate_root(&extended),
        Err(GltfImportError::Unsupported("extensionsRequired is non-empty"))
    );
    let empty_lists = parse_json(r#"{"asset":{"version":"2.0"},"extensionsRequired":[],"skins":[]}"#);
    assert_eq!(validate_root(&empty_lists), Ok(()));
    assert_eq!(split_glb(b"nota glb file!!!!"), Err(GltfImportError::InvalidMagic));
}

#[test]
fn document_root_checks_asset_and_version() {
    assert_eq!(
        validate_root(&parse_json(r#"{}"#)),
        Err(GltfImportError::Json("missing asset".into()))
    );
    assert_eq!(
        validate_root(&parse_json(r#"{"asset":3}"#)),
        Err(GltfImportError::Json("missing asset".into()))
    );
    assert_eq!(
        validate_root(&parse_json(r#"{"asset":{}}"#)),
        Err(GltfImportError::Json("missing asset.version".into()))
    );
    assert_eq!(
        validate_root(&parse_json(r#"{"asset":{"version":"1.0"}}"#)),
        Err(GltfImportError::UnsupportedVersion)
    );
    assert_eq!(validate_root(&parse_json(r#"{"asset":{"version":"2"}}"#)), Ok(()));
    assert_eq!(validate_root(&parse_json(r#"{"asset":{"version":"2.1"}}"#)), Ok(()));
    assert_eq!(
        validate_root(&parse_json(r#"{"asset":{"version":"20"}}"#)),
        Err(GltfImportError::UnsupportedVersion)
    );
}

#[test]
fn document_rejects_external_uri_and_missing_lists() {
    let external = parse_json(
        r#"{"asset":{"version":"2.0"},
            "meshes":[{"primitives":[{"attributes":{"POSITION":0},"indices":1}]}],
            "accessors":[{"bufferView":0,"componentType":5126,"count":3,"type":"VEC3"}],
            "bufferViews":[{"buffer":0,"byteOffset":0,"byteLength":36}],
            "buffers":[{"byteLength":42,"uri":"data.bin"}]}"#,
    );
    assert_eq!(validate_root(&external), Ok(()));
    assert_eq!(
        GlbDocument::parse(&external).unwrap_err(),
        GltfImportError::Unsupported("external buffer URI")
    );
    let empty_uri = parse_json(
        r#"{"meshes":[{"primitives":[{"attributes":{"POSITION":0}}]}],
            "buffers":[{"byteLength":0,"uri":""}]}"#,
    );
    let document = GlbDocument::parse(&empty_uri).unwrap();
    assert_eq!(document.buffers[0].uri.as_deref(), Some(""));
    assert_eq!(
        GlbDocument::parse(&parse_json(r#"{"buffers":[{"byteLength":4}]}"#)).unwrap_err(),
        GltfImportError::Json("no meshes".into())
    );
    assert_eq!(
        GlbDocument::parse(&parse_json(r#"{"meshes":[{"primitives":[{"attributes":{}}]}]}"#)).unwrap_err(),
        GltfImportError::Json("no buffers".into())
    );
    assert_eq!(
        GlbDocument::parse(&parse_json(r#"{"meshes":[{"primitives":[]}],"buffers":[{"byteLength":4}]}"#))
            .unwrap_err(),
        GltfImportError::Json("mesh has no primitives".into())
    );
}

#[test]
fn primitive_reader_names_each_field_problem() {
    let primitive = parse_primitive(&parse_json(
        r#"{"attributes":{"POSITION":0,"NORMAL":1,"TEXCOORD_0":2,"COLOR_0":3},"mode":4}"#,
    ))
    .unwrap();
    assert_eq!(
        primitive.attributes,
        Attributes {
            position: Some(0),
            normal: Some(1),
            texcoord_0: Some(2),
            color_0: Some(3),
            joints_0: None,
            weights_0: None,
        }
    );
    assert_eq!(primitive.indices, None);
    assert_eq!(primitive.material, None);
    assert_eq!(
        parse_primitive(&parse_json(r#"{"attributes":{"TANGENT":0}}"#)),
        Err(GltfImportError::Unsupported("advanced mesh attributes"))
    );
    assert_eq!(
        parse_primitive(&parse_json(r#"{"attributes":{"_CUSTOM":0}}"#)),
        Err(GltfImportError::Unsupported("unknown primitive attribute"))
    );
    assert_eq!(
        parse_primitive(&parse_json(r#"{"attributes":{"POSITION":-1}}"#)),
        Err(GltfImportError::Json("attribute POSITION index must be u64".into()))
    );
    assert_eq!(
        parse_primitive(&parse_json(r#"{"attributes":{},"targets":[]}"#)),
        Err(GltfImportError::Unsupported("morph targets"))
    );
    assert_eq!(
        parse_primitive(&parse_json(r#"{"indices":0}"#)),
        Err(GltfImportError::Json("primitive.attributes missing".into()))
    );
    assert_eq!(
        parse_primitive(&parse_json(r#"{"attributes":{},"indices":"0"}"#)),
        Err(GltfImportError::Json("indices must be u64".into()))
    );
    assert_eq!(
        parse_primitive(&parse_json(r#"{"attributes":{},"mode":1.5}"#)),
        Err(GltfImportError::Json("mode must be u64".into()))
    );
    assert_eq!(
        parse_primitive(&parse_json(r#"[]"#)),
        Err(GltfImportError::Json("primitive must be an object".into()))
    );
}

#[test]
fn static_primitive_check_rejects_modes_skinning_and_missing_position() {
    let base = Primitive {
        attributes: Attributes { position: Some(7), ..Attributes::default() },
        indices: None,
        material: None,
        mode: MODE_TRIANGLES,
    };
    assert_eq!(check_primitive(&base), Ok(7));
    let lines = Primitive { mode: 1, ..base };
    assert_eq!(
        check_primitive(&lines),
        Err(GltfImportError::Unsupported("non-TRIANGLES primitive mode"))
    );
    let skinned = Primitive {
        attributes: Attributes { weights_0: Some(2), ..base.attributes },
        ..base
    };
    assert_eq!(
        check_primitive(&skinned),
        Err(GltfImportError::Unsupported("skinned primitive attributes"))
    );
    let unpositioned = Primitive { attributes: Attributes::default(), ..base };
    assert_eq!(
        check_primitive(&unpositioned),
        Err(GltfImportError::MissingAttribute("POSITION"))
    );
}

#[test]
fn mesh_accessor_view_and_buffer_readers() {
    let mesh = parse_mesh(&parse_json(
        r#"{"name":"quad","primitives":[{"attributes":{"POSITION":0}},{"attributes":{"POSITION":1},"mode":0}]}"#,
    ))
    .unwrap();
    assert_eq!(mesh.name.as_deref(), Some("quad"));
    assert_eq!(mesh.primitives.len(), 2);
    assert_eq!(mesh.primitives[1].mode, 0);
    assert_eq!(
        parse_mesh(&parse_json(r#"{"primitives":[{"attributes":{}}],"weights":[0.5]}"#)).unwrap_err(),
        GltfImportError::Unsupported("morph target weights")
    );

    let accessor = parse_accessor(&parse_json(
        r#"{"bufferView":2,"byteOffset":8,"componentType":5125,"count":6,"type":"SCALAR","normalized":true}"#,
    ))
    .unwrap();
    assert_eq!(accessor.buffer_view, Some(2));
    assert_eq!(accessor.byte_offset, 8);
    assert_eq!(accessor.component_type, 5125);
    assert_eq!(accessor.count, 6);
    assert_eq!(accessor.element_type, "SCALAR");
    assert!(accessor.normalized);
    assert_eq!(
        parse_accessor(&parse_json(r#"{"componentType":5125,"count":1,"type":"SCALAR","sparse":{}}"#)).unwrap_err(),
        GltfImportError::Unsupported("sparse accessors")
    );
    assert_eq!(
        parse_accessor(&parse_json(r#"{"count":1,"type":"SCALAR"}"#)).unwrap_err(),
        GltfImportError::Json("componentType missing".into())
    );
    assert_eq!(
        parse_accessor(&parse_json(r#"{"componentType":5125,"count":1}"#)).unwrap_err(),
        GltfImportError::Json("type missing".into())
    );

    let view = parse_buffer_view(&parse_json(r#"{"buffer":0,"byteLength":12,"byteStride":4}"#)).unwrap();
    assert_eq!(view.buffer, 0);
    assert_eq!(view.byte_offset, 0);
    assert_eq!(view.byte_length, 12);
    assert_eq!(view.byte_stride, Some(4));
    assert_eq!(
        parse_buffer_view(&parse_json(r#"{"byteLength":12}"#)).unwrap_err(),
        GltfImportError::Json("bufferView.buffer missing".into())
    );

    let buffer = parse_buffer(&parse_json(r#"{"byteLength":64}"#)).unwrap();
    assert_eq!(buffer.byte_length, 64);
    assert_eq!(buffer.uri, None);
    assert_eq!(
        parse_buffer(&parse_json(r#"{"uri":"x.bin"}"#)).unwrap_err(),
        GltfImportError::Json("buffer.byteLength missing".into())
    );
}

#[test]
fn single_embedded_buffer_is_selected_or_refused() {
    let one = GlbDocument::parse(&parse_json(
        r#"{"meshes":[{"primitives":[{"attributes":{"POSITION":0}}]}],"buffers":[{"byteLength":4}]}"#,
    ))
    .unwrap();
    let bytes = [1u8, 2, 3, 4, 5, 6, 7, 8];
    assert_eq!(one.select_bin(Some(&bytes)).unwrap(), &[1u8, 2, 3, 4]);
    assert_eq!(one.select_bin(Some(&bytes[..3])).unwrap_err(), GltfImportError::Truncated);
    assert_eq!(
        one.select_bin(None).unwrap_err(),
        GltfImportError::Unsupported("missing BIN chunk")
    );

    let empty = GlbDocument::parse(&parse_json(
        r#"{"meshes":[{"primitives":[{"attributes":{"POSITION":0}}]}],"buffers":[{"byteLength":0}]}"#,
    ))
    .unwrap();
    assert_eq!(empty.select_bin(None).unwrap().len(), 0);

    let two = GlbDocument::parse(&parse_json(
        r#"{"meshes":[{"primitives":[{"attributes":{"POSITION":0}}]}],
            "buffers":[{"byteLength":4},{"byteLength":4}]}"#,
    ))
    .unwrap();
    assert_eq!(
        two.select_bin(Some(&bytes)).unwrap_err(),
        GltfImportError::Unsupported("only a single GLB BIN buffer is accepted")
    );
}

#[test]
fn json_lookups_follow_member_order_and_kinds() {
    let value = JsonValue::Object(vec![
        ("a".to_string(), JsonValue::UInt(1)),
        ("b".to_string(), JsonValue::Str("text".to_string())),
        ("a".to_string(), JsonValue::UInt(2)),
        ("c".to_string(), JsonValue::Array(vec![JsonValue::Bool(true)])),
        ("d".to_string(), JsonValue::OtherNumber),
    ]);
    assert_eq!(value.get("a").and_then(|v| v.as_u64()), Some(1));
    assert_eq!(value.get("b").and_then(|v| v.as_str()), Some("text"));
    assert_eq!(value.get("c").and_then(|v| v.as_array()).map(|items| items.len()), Some(1));
    assert_eq!(value.get("c").and_then(|v| v.as_array()).and_then(|items| items[0].as_bool()), Some(true));
    assert_eq!(value.get("d").and_then(|v| v.as_u64()), None);
    assert!(value.get("missing").is_none());
    assert!(JsonValue::Null.get("a").is_none());
    assert_eq!(JsonValue::Str("1".to_string()).as_u64(), None);
}

#[test]
fn glb_bytes_parse_to_the_document_and_bin_chunk() {
    let glb = build_glb(TRIANGLE_JSON, &triangle_bin());
    let (document, bin) = parse_glb_document(&glb).unwrap();
    assert_eq!(document.meshes[0].name.as_deref(), Some("tri"));
    assert_eq!(document.layout.accessors.len(), 2);
    assert_eq!(bin.unwrap().len(), 44);
}

#[test]
fn glb_bytes_report_each_stage_error_in_order() {
    assert_eq!(
        parse_glb_document(&vec![0u8; MAX_GLB_BYTES + 1]).unwrap_err(),
        GltfImportError::Capacity
    );
    assert_eq!(parse_glb_document(b"nota glb file!!!!").unwrap_err(), GltfImportError::InvalidMagic);
    assert!(matches!(
        parse_glb_document(&build_glb("{not json", &[])).unwrap_err(),
        GltfImportError::Json(_)
    ));
    let skinned = r#"{"asset":{"version":"2.0"},"skins":[{"joints":[0]}],
        "meshes":[{"primitives":[{"attributes":{"POSITION":0}}]}],"buffers":[{"byteLength":0}]}"#;
    assert_eq!(parse_glb_document(&build_glb(skinned, &[])).unwrap_err(), GltfImportError::Unsupported("skins"));
    let no_meshes = r#"{"asset":{"version":"2.0"},"buffers":[{"byteLength":0}]}"#;
    assert_eq!(
        parse_glb_document(&build_glb(no_meshes, &[])).unwrap_err(),
        GltfImportError::Json("no meshes".into())
    );
}

#[test]
fn rejects_skins_and_bad_magic() {
    let json = r#"{
      "asset":{"version":"2.0"},
      "skins":[{"joints":[0]}],
      "meshes":[{"primitives":[{"attributes":{"POSITION":0}}]}],
      "accessors":[{"bufferView":0,"componentType":5126,"count":3,"type":"VEC3"}],
      "bufferViews":[{"buffer":0,"byteLength":36}],
      "buffers":[{"byteLength":36}]
    }"#;
    let mut bin = Vec::new();
    for _ in 0..9 {
        bin.extend_from_slice(&0f32.to_le_bytes());
    }
    assert_eq!(parse_glb_document(&build_glb(json, &bin)).unwrap_err(), GltfImportError::Unsupported("skins"));
    assert_eq!(parse_glb_document(b"nota glb file!!!!").unwrap_err(), GltfImportError::InvalidMagic);
}

#[test]
fn rejects_required_extensions_and_external_uri() {
    let json = r#"{
      "asset":{"version":"2.0"},
      "extensionsRequired":["KHR_draco_mesh_compression"],
      "meshes":[{"primitives":[{"attributes":{"POSITION":0}}]}],
      "accessors":[{"bufferView":0,"componentType":5126,"count":3,"type":"VEC3"}],
      "bufferViews":[{"buffer":0,"byteLength":36}],
      "buffers":[{"byteLength":36}]
    }"#;
    let bin = vec![0u8; 36];
    assert!(matches!(
        parse_glb_document(&build_glb(json, &bin)).unwrap_err(),
        GltfImportError::Unsupported("extensionsRequired is non-empty")
    ));

    let json = r#"{
      "asset":{"version":"2.0"},
      "meshes":[{"primitives":[{"attributes":{"POSITION":0},"indices":1}]}],
      "accessors":[
        {"bufferView":0,"componentType":5126,"count":3,"type":"VEC3"},
        {"bufferView":1,"componentType":5123,"count":3,"type":"SCALAR"}
      ],
      "bufferViews":[
        {"buffer":0,"byteOffset":0,"byteLength":36},
        {"buffer":0,"byteOffset":36,"byteLength":6}
      ],
      "buffers":[{"byteLength":42,"uri":"data.bin"}]
    }"#;
    assert!(matches!(
        parse_glb_document(&build_glb(json, &bin)).unwrap_err(),
        GltfImportError::Unsupported("external buffer URI")
    ));
}
