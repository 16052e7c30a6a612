//! From GLB bytes to the integer structure of their glTF document: the size limit, the
//! container framing, the JSON parse, the root checks and the document readers, in that order.
use crate::glb::{bytes_view, glb_split, split_glb, GltfImportError, ImportFault};
use crate::glb_document::{document_check, parsed_as, root_check, validate_root, GlbDocument};
use crate::json::JsonValue;
use vstd::prelude::*;

verus! {

/// Largest GLB payload accepted, in bytes.
pub const MAX_GLB_BYTES: usize = 67_108_864;

#[verifier::external_type_specification]
#[verifier::external_body]
pub struct ExSerdeJsonValue(serde_json::Value);

/// What `serde_json::from_slice` makes of `bytes`, as a document value, or its error message.
pub uninterp spec fn json_document(bytes: Seq<u8>) -> Result<JsonValue, Seq<char>>;

/// A parsed JSON value as a document value: numbers that are non-negative integers fitting in
/// `u64` keep their value, other numbers are marked, and object members come in the order the
/// parsed map yields them.
#[verifier::external_body]
fn document_value(value: &serde_json::Value) -> JsonValue {
    match value {
        serde_json::Value::Null => JsonValue::Null,
        serde_json::Value::Bool(flag) => JsonValue::Bool(*flag),
        serde_json::Value::Number(number) => match number.as_u64() {
            Some(n) => JsonValue::UInt(n),
            None => JsonValue::OtherNumber,
        },
        serde_json::Value::String(text) => JsonValue::Str(text.clone()),
        serde_json::Value::Array(items) => JsonValue::Array(items.iter().map(document_value).collect()),
        serde_json::Value::Object(members) => JsonValue::Object(
            members.iter().map(|(key, member)| (key.clone(), document_value(member))).collect(),
        ),
    }
}

/// Parses a JSON text with `serde_json::from_slice`: the document value, or the parser's error
/// message. The result depends on the bytes alone.
#[verifier::external_body]
fn parse_json(bytes: &[u8]) -> (r: Result<JsonValue, String>)
    ensures
        match r {
            Ok(v) => json_document(bytes@) == Ok::<JsonValue, Seq<char>>(v),
            Err(m) => json_document(bytes@) == Err::<JsonValue, Seq<char>>(m@),
        },
{
    match serde_json::from_slice::<serde_json::Value>(bytes) {
        Ok(value) => Ok(document_value(&value)),
        Err(error) => Err(error.to_string()),
    }
}

/// Why GLB bytes do not hold an importable document, if they do not; otherwise the document
/// root and the BIN chunk.
pub open spec fn glb_document_check(bytes: Seq<u8>) -> Result<(JsonValue, Option<Seq<u8>>), ImportFault> {
    if bytes.len() > MAX_GLB_BYTES {
        Err(ImportFault::Capacity)
    } else {
        match glb_split(bytes) {
            Err(f) => Err(f),
            Ok((json, bin)) => match json_document(json) {
                Err(m) => Err(ImportFault::Json(m)),
                Ok(root) => match root_check(root) {
                    Some(f) => Err(f),
                    None => match document_check(root) {
                        Some(f) => Err(f),
                        None => Ok((root, bin)),
                    },
                },
            },
        }
    }
}

/// Reads the document of a GLB payload and hands back its BIN chunk.
pub fn parse_glb_document(bytes: &[u8]) -> (r: Result<(GlbDocument, Option<Vec<u8>>), GltfImportError>)
    ensures
        match glb_document_check(bytes@) {
            Err(f) => r matches Err(e) && e.fault() == f,
            Ok((root, bin)) => r matches Ok((d, b)) && parsed_as(root, d) && bytes_view(b) == bin,
        },
{
    if bytes.len() > MAX_GLB_BYTES {
        return Err(GltfImportError::Capacity);
    }
    let (json, bin) = match split_glb(bytes) {
        Ok(parts) => parts,
        Err(e) => return Err(e),
    };
    let root = match parse_json(json.as_slice()) {
        Ok(v) => v,
        Err(message) => return Err(GltfImportError::Json(message)),
    };
    match validate_root(&root) {
        Ok(()) => {},
        Err(e) => return Err(e),
    }
    match GlbDocument::parse(&root) {
        Ok(document) => Ok((document, bin)),
        Err(e) => Err(e),
    }
}

} // verus!
