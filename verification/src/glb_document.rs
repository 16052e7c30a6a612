//! Reading the integer structure of a glTF JSON document: the root checks, meshes and their
//! primitives, accessors, buffer views and buffers.
//!
//! Every reader is fail-closed and reports the first problem in document order. Material
//! colours are floating point and are read by the caller.
use crate::glb::{Accessor, BufferView, GlbLayout, GltfImportError, ImportFault};
use crate::json::JsonValue;
use crate::text::same_text;
use vstd::prelude::*;
use vstd::string::StrSliceExecFns;

verus! {

/// Primitive topology used when `mode` is absent: a triangle list.
pub const MODE_TRIANGLES: u32 = 4;

/// Accessor indices of the vertex attributes a primitive names.
#[derive(Clone, Copy, Debug, PartialEq, Eq, Structural)]
pub struct Attributes {
    pub position: Option<usize>,
    pub normal: Option<usize>,
    pub texcoord_0: Option<usize>,
    pub color_0: Option<usize>,
    pub joints_0: Option<usize>,
    pub weights_0: Option<usize>,
}

pub open spec fn no_attributes() -> Attributes {
    Attributes { position: None, normal: None, texcoord_0: None, color_0: None, joints_0: None, weights_0: None }
}

impl Default for Attributes {
    fn default() -> (r: Self)
        ensures
            r == no_attributes(),
    {
        Attributes { position: None, normal: None, texcoord_0: None, color_0: None, joints_0: None, weights_0: None }
    }
}

/// One primitive of a mesh: its attributes, optional index accessor and material, and mode.
#[derive(Clone, Copy, Debug, PartialEq, Eq, Structural)]
pub struct Primitive {
    pub attributes: Attributes,
    pub indices: Option<usize>,
    pub material: Option<usize>,
    pub mode: u32,
}

/// A mesh: optional name and its primitives.
#[derive(Debug)]
pub struct MeshNode {
    pub name: Option<String>,
    pub primitives: Vec<Primitive>,
}

/// A buffer declaration: its length and optional external URI.
#[derive(Debug)]
pub struct BufferDesc {
    pub byte_length: usize,
    pub uri: Option<String>,
}

/// Integer structure of a glTF document.
#[derive(Debug)]
pub struct GlbDocument {
    pub meshes: Vec<MeshNode>,
    pub layout: GlbLayout,
    pub buffers: Vec<BufferDesc>,
}

pub open spec fn text_view(s: Option<String>) -> Option<Seq<char>> {
    match s {
        Some(t) => Some(t@),
        None => None,
    }
}

pub open spec fn mesh_view(m: MeshNode) -> (Option<Seq<char>>, Seq<Primitive>) {
    (text_view(m.name), m.primitives@)
}

pub open spec fn accessor_view(a: Accessor) -> (Option<usize>, usize, u32, usize, Seq<char>, bool) {
    (a.buffer_view, a.byte_offset, a.component_type, a.count, a.element_type@, a.normalized)
}

pub open spec fn buffer_view_of(b: BufferDesc) -> (usize, Option<Seq<char>>) {
    (b.byte_length, text_view(b.uri))
}

/// `prefix` followed by the values of `rest`, or the error of `rest`.
pub open spec fn prepend_all<T>(prefix: Seq<T>, rest: Result<Seq<T>, ImportFault>) -> Result<Seq<T>, ImportFault> {
    match rest {
        Ok(r) => Ok(prefix + r),
        Err(e) => Err(e),
    }
}

/// Every item read with `parse`, in order, or the first error.
pub open spec fn all_parsed<T>(items: Seq<JsonValue>, parse: spec_fn(JsonValue) -> Result<T, ImportFault>) -> Result<
    Seq<T>,
    ImportFault,
>
    decreases items.len(),
{
    if items.len() == 0 {
        Ok(Seq::empty())
    } else {
        match parse(items[0]) {
            Err(e) => Err(e),
            Ok(x) => prepend_all(seq![x], all_parsed(items.drop_first(), parse)),
        }
    }
}

proof fn lemma_all_parsed_start<T>(items: Seq<JsonValue>, parse: spec_fn(JsonValue) -> Result<T, ImportFault>)
    ensures
        all_parsed(items, parse) == prepend_all(Seq::<T>::empty(), all_parsed(items.subrange(0, items.len() as int), parse)),
{
    assert(items.subrange(0, items.len() as int) =~= items);
    match all_parsed(items, parse) {
        Ok(r) => {
            assert(Seq::<T>::empty() + r =~= r);
        },
        Err(_) => {},
    }
}

proof fn lemma_all_parsed_step<T>(
    items: Seq<JsonValue>,
    i: int,
    done: Seq<T>,
    x: T,
    parse: spec_fn(JsonValue) -> Result<T, ImportFault>,
)
    requires
        0 <= i < items.len(),
        parse(items[i]) == Ok::<T, ImportFault>(x),
    ensures
        prepend_all(done, all_parsed(items.subrange(i, items.len() as int), parse)) == prepend_all(
            done.push(x),
            all_parsed(items.subrange(i + 1, items.len() as int), parse),
        ),
{
    let rest = items.subrange(i, items.len() as int);
    assert(rest.drop_first() =~= items.subrange(i + 1, items.len() as int));
    assert(rest[0] == items[i]);
    match all_parsed(items.subrange(i + 1, items.len() as int), parse) {
        Ok(r) => {
            assert(done + (seq![x] + r) =~= done.push(x) + r);
        },
        Err(_) => {},
    }
}

proof fn lemma_all_parsed_fail<T>(
    items: Seq<JsonValue>,
    i: int,
    done: Seq<T>,
    f: ImportFault,
    parse: spec_fn(JsonValue) -> Result<T, ImportFault>,
)
    requires
        0 <= i < items.len(),
        parse(items[i]) == Err::<T, ImportFault>(f),
    ensures
        prepend_all(done, all_parsed(items.subrange(i, items.len() as int), parse)) == Err::<Seq<T>, ImportFault>(f),
{
    let rest = items.subrange(i, items.len() as int);
    assert(rest[0] == items[i]);
}

proof fn lemma_all_parsed_end<T>(items: Seq<JsonValue>, done: Seq<T>, parse: spec_fn(JsonValue) -> Result<T, ImportFault>)
    ensures
        prepend_all(done, all_parsed(items.subrange(items.len() as int, items.len() as int), parse)) == Ok::<
            Seq<T>,
            ImportFault,
        >(done),
{
    assert(items.subrange(items.len() as int, items.len() as int) =~= Seq::<JsonValue>::empty());
    assert(done + Seq::<T>::empty() =~= done);
}

/// An optional index member: absent, or a non-negative integer, else `what` is reported.
pub open spec fn optional_index(v: Option<JsonValue>, what: Seq<char>) -> Result<Option<usize>, ImportFault> {
    match v {
        None => Ok(None),
        Some(x) => match x.uint_spec() {
            Some(n) => Ok(Some(n as usize)),
            None => Err(ImportFault::Json(what)),
        },
    }
}

/// Reads an optional index member; `what` is the message for a member that is not one.
fn read_optional_index(value: &JsonValue, key: &str, what: &str) -> (r: Result<Option<usize>, GltfImportError>)
    ensures
        match optional_index(value.field(key@), what@) {
            Ok(v) => r == Ok::<Option<usize>, GltfImportError>(v),
            Err(f) => r matches Err(e) && e.fault() == f,
        },
{
    match value.get(key) {
        None => Ok(None),
        Some(member) => match member.as_u64() {
            Some(n) => Ok(Some(n as usize)),
            None => Err(GltfImportError::Json(what.to_owned())),
        },
    }
}

/// A required integer member, else `what` is reported.
pub open spec fn required_uint(v: Option<JsonValue>, what: Seq<char>) -> Result<u64, ImportFault> {
    match v {
        Some(x) => match x.uint_spec() {
            Some(n) => Ok(n),
            None => Err(ImportFault::Json(what)),
        },
        None => Err(ImportFault::Json(what)),
    }
}

fn read_required_uint(value: &JsonValue, key: &str, what: &str) -> (r: Result<u64, GltfImportError>)
    ensures
        match required_uint(value.field(key@), what@) {
            Ok(v) => r == Ok::<u64, GltfImportError>(v),
            Err(f) => r matches Err(e) && e.fault() == f,
        },
{
    match value.get(key) {
        Some(member) => match member.as_u64() {
            Some(n) => Ok(n),
            None => Err(GltfImportError::Json(what.to_owned())),
        },
        None => Err(GltfImportError::Json(what.to_owned())),
    }
}

/// An optional integer member read leniently: anything but an integer counts as absent.
pub open spec fn uint_or(v: Option<JsonValue>, default: u64) -> u64 {
    match v {
        Some(x) => match x.uint_spec() {
            Some(n) => n,
            None => default,
        },
        None => default,
    }
}

fn read_uint_or(value: &JsonValue, key: &str, default: u64) -> (r: u64)
    ensures
        r == uint_or(value.field(key@), default),
{
    match value.get(key) {
        Some(member) => match member.as_u64() {
            Some(n) => n,
            None => default,
        },
        None => default,
    }
}

/// The string member `key`, if it is a string.
pub open spec fn text_member(v: Option<JsonValue>) -> Option<Seq<char>> {
    match v {
        Some(x) => x.text_spec(),
        None => None,
    }
}

fn read_text_member(value: &JsonValue, key: &str) -> (r: Option<String>)
    ensures
        text_view(r) == text_member(value.field(key@)),
{
    match value.get(key) {
        Some(member) => match member.as_str() {
            Some(s) => Some(s.to_owned()),
            None => None,
        },
        None => None,
    }
}

/// Records attribute `key` at accessor `index`, or rejects an attribute this importer does
/// not accept.
pub open spec fn attribute_slot(attrs: Attributes, key: Seq<char>, index: usize) -> Result<Attributes, ImportFault> {
    if key == "POSITION"@ {
        Ok(Attributes { position: Some(index), ..attrs })
    } else if key == "NORMAL"@ {
        Ok(Attributes { normal: Some(index), ..attrs })
    } else if key == "TEXCOORD_0"@ {
        Ok(Attributes { texcoord_0: Some(index), ..attrs })
    } else if key == "COLOR_0"@ {
        Ok(Attributes { color_0: Some(index), ..attrs })
    } else if key == "JOINTS_0"@ {
        Ok(Attributes { joints_0: Some(index), ..attrs })
    } else if key == "WEIGHTS_0"@ {
        Ok(Attributes { weights_0: Some(index), ..attrs })
    } else if key == "TEXCOORD_1"@ || key == "TANGENT"@ {
        Err(ImportFault::Unsupported("advanced mesh attributes"@))
    } else {
        Err(ImportFault::Unsupported("unknown primitive attribute"@))
    }
}

/// The attribute members from `i` on, applied in order to `attrs`.
pub open spec fn attributes_from(entries: Seq<(String, JsonValue)>, i: int, attrs: Attributes) -> Result<
    Attributes,
    ImportFault,
>
    decreases entries.len() - i,
{
    if i >= entries.len() {
        Ok(attrs)
    } else {
        let (key, value) = entries[i];
        match value.uint_spec() {
            None => Err(ImportFault::Json("attribute "@ + key@ + " index must be u64"@)),
            Some(n) => match attribute_slot(attrs, key@, n as usize) {
                Err(e) => Err(e),
                Ok(a) => attributes_from(entries, i + 1, a),
            },
        }
    }
}

/// The rest of a primitive once its attributes have been read: index accessor, material and
/// mode, in that order.
pub open spec fn primitive_after_attributes(v: JsonValue, attributes: Result<Attributes, ImportFault>) -> Result<
    Primitive,
    ImportFault,
> {
    match attributes {
        Err(e) => Err(e),
        Ok(attributes) => match optional_index(v.field("indices"@), "indices must be u64"@) {
            Err(e) => Err(e),
            Ok(indices) => match optional_index(v.field("material"@), "material must be u64"@) {
                Err(e) => Err(e),
                Ok(material) => match v.field("mode"@) {
                    None => Ok(Primitive { attributes, indices, material, mode: MODE_TRIANGLES }),
                    Some(m) => match m.uint_spec() {
                        Some(n) => Ok(Primitive { attributes, indices, material, mode: n as u32 }),
                        None => Err(ImportFault::Json("mode must be u64"@)),
                    },
                },
            },
        },
    }
}

/// A primitive object, or the first reason it is rejected.
pub open spec fn primitive_spec(v: JsonValue) -> Result<Primitive, ImportFault> {
    if !v.is_object() {
        Err(ImportFault::Json("primitive must be an object"@))
    } else if v.field("targets"@) is Some {
        Err(ImportFault::Unsupported("morph targets"@))
    } else {
        match v.field("attributes"@) {
            Some(JsonValue::Object(entries)) => primitive_after_attributes(
                v,
                attributes_from(entries@, 0, no_attributes()),
            ),
            _ => Err(ImportFault::Json("primitive.attributes missing"@)),
        }
    }
}

pub open spec fn primitive_parser() -> spec_fn(JsonValue) -> Result<Primitive, ImportFault> {
    |v: JsonValue| primitive_spec(v)
}

fn json_error(message: &str) -> (e: GltfImportError)
    ensures
        e.fault() == ImportFault::Json(message@),
{
    GltfImportError::Json(message.to_owned())
}

/// Reads one primitive object.
pub fn parse_primitive(value: &JsonValue) -> (r: Result<Primitive, GltfImportError>)
    ensures
        match primitive_spec(*value) {
            Ok(p) => r == Ok::<Primitive, GltfImportError>(p),
            Err(f) => r matches Err(e) && e.fault() == f,
        },
{
    let is_object = match value {
        JsonValue::Object(_) => true,
        _ => false,
    };
    if !is_object {
        return Err(json_error("primitive must be an object"));
    }
    if value.get("targets").is_some() {
        return Err(GltfImportError::Unsupported("morph targets"));
    }
    let entries = match value.get("attributes") {
        Some(JsonValue::Object(entries)) => entries,
        _ => return Err(json_error("primitive.attributes missing")),
    };
    let mut attributes = Attributes::default();
    let mut i: usize = 0;
    while i < entries.len()
        invariant
            i <= entries@.len(),
            primitive_spec(*value) == primitive_after_attributes(
                *value,
                attributes_from(entries@, i as int, attributes),
            ),
        decreases entries@.len() - i,
    {
        let key = entries[i].0.as_str();
        let index = match entries[i].1.as_u64() {
            Some(n) => n as usize,
            None => {
                let mut message = String::from_str("attribute ");
                message.append(key);
                message.append(" index must be u64");
                return Err(GltfImportError::Json(message));
            },
        };
        if same_text(key, "POSITION") {
            attributes.position = Some(index);
        } else if same_text(key, "NORMAL") {
            attributes.normal = Some(index);
        } else if same_text(key, "TEXCOORD_0") {
            attributes.texcoord_0 = Some(index);
        } else if same_text(key, "COLOR_0") {
            attributes.color_0 = Some(index);
        } else if same_text(key, "JOINTS_0") {
            attributes.joints_0 = Some(index);
        } else if same_text(key, "WEIGHTS_0") {
            attributes.weights_0 = Some(index);
        } else if same_text(key, "TEXCOORD_1") || same_text(key, "TANGENT") {
            return Err(GltfImportError::Unsupported("advanced mesh attributes"));
        } else {
            return Err(GltfImportError::Unsupported("unknown primitive attribute"));
        }
        i = i + 1;
    }
    let indices = match read_optional_index(value, "indices", "indices must be u64") {
        Ok(v) => v,
        Err(e) => return Err(e),
    };
    let material = match read_optional_index(value, "material", "material must be u64") {
        Ok(v) => v,
        Err(e) => return Err(e),
    };
    let mode = match value.get("mode") {
        None => MODE_TRIANGLES,
        Some(m) => match m.as_u64() {
            Some(n) => n as u32,
            None => return Err(json_error("mode must be u64")),
        },
    };
    Ok(Primitive { attributes, indices, material, mode })
}

/// A mesh object: its name and primitives, or the first reason it is rejected.
pub open spec fn mesh_spec(v: JsonValue) -> Result<(Option<Seq<char>>, Seq<Primitive>), ImportFault> {
    if !v.is_object() {
        Err(ImportFault::Json("mesh must be an object"@))
    } else {
        match v.field("primitives"@) {
            Some(JsonValue::Array(items)) => match all_parsed(items@, primitive_parser()) {
                Err(e) => Err(e),
                Ok(primitives) => if primitives.len() == 0 {
                    Err(ImportFault::Json("mesh has no primitives"@))
                } else if v.field("weights"@) is Some {
                    Err(ImportFault::Unsupported("morph target weights"@))
                } else {
                    Ok((text_member(v.field("name"@)), primitives))
                },
            },
            _ => Err(ImportFault::Json("mesh.primitives missing"@)),
        }
    }
}

pub open spec fn mesh_parser() -> spec_fn(JsonValue) -> Result<(Option<Seq<char>>, Seq<Primitive>), ImportFault> {
    |v: JsonValue| mesh_spec(v)
}

/// Reads every primitive of a list, stopping at the first error.
fn parse_primitives(items: &Vec<JsonValue>) -> (r: Result<Vec<Primitive>, GltfImportError>)
    ensures
        match all_parsed(items@, primitive_parser()) {
            Ok(v) => r matches Ok(out) && out@ == v,
            Err(f) => r matches Err(e) && e.fault() == f,
        },
{
    let mut out: Vec<Primitive> = Vec::new();
    let mut i: usize = 0;
    proof {
        lemma_all_parsed_start(items@, primitive_parser());
    }
    while i < items.len()
        invariant
            i <= items@.len(),
            all_parsed(items@, primitive_parser()) == prepend_all(
                out@,
                all_parsed(items@.subrange(i as int, items@.len() as int), primitive_parser()),
            ),
        decreases items@.len() - i,
    {
        match parse_primitive(&items[i]) {
            Ok(p) => {
                proof {
                    lemma_all_parsed_step(items@, i as int, out@, p, primitive_parser());
                }
                out.push(p);
            },
            Err(e) => {
                proof {
                    lemma_all_parsed_fail(items@, i as int, out@, e.fault(), primitive_parser());
                }
                return Err(e);
            },
        }
        i = i + 1;
    }
    proof {
        lemma_all_parsed_end(items@, out@, primitive_parser());
    }
    Ok(out)
}

/// Reads one mesh object.
pub fn parse_mesh(value: &JsonValue) -> (r: Result<MeshNode, GltfImportError>)
    ensures
        match mesh_spec(*value) {
            Ok(m) => r matches Ok(node) && mesh_view(node) == m,
            Err(f) => r matches Err(e) && e.fault() == f,
        },
{
    let is_object = match value {
        JsonValue::Object(_) => true,
        _ => false,
    };
    if !is_object {
        return Err(json_error("mesh must be an object"));
    }
    let name = read_text_member(value, "name");
    let primitives = match value.get("primitives") {
        Some(JsonValue::Array(items)) => match parse_primitives(items) {
            Ok(p) => p,
            Err(e) => return Err(e),
        },
        _ => return Err(json_error("mesh.primitives missing")),
    };
    if primitives.len() == 0 {
        return Err(json_error("mesh has no primitives"));
    }
    if value.get("weights").is_some() {
        return Err(GltfImportError::Unsupported("morph target weights"));
    }
    Ok(MeshNode { name, primitives })
}

/// An accessor object, or the first reason it is rejected. Missing `byteOffset` reads as 0
/// and missing `normalized` as false.
pub open spec fn accessor_spec(v: JsonValue) -> Result<(Option<usize>, usize, u32, usize, Seq<char>, bool), ImportFault> {
    if !v.is_object() {
        Err(ImportFault::Json("accessor must be an object"@))
    } else if v.field("sparse"@) is Some {
        Err(ImportFault::Unsupported("sparse accessors"@))
    } else {
        match optional_index(v.field("bufferView"@), "bufferView must be u64"@) {
            Err(e) => Err(e),
            Ok(buffer_view) => match required_uint(v.field("componentType"@), "componentType missing"@) {
                Err(e) => Err(e),
                Ok(component_type) => match required_uint(v.field("count"@), "count missing"@) {
                    Err(e) => Err(e),
                    Ok(count) => match text_member(v.field("type"@)) {
                        None => Err(ImportFault::Json("type missing"@)),
                        Some(element_type) => Ok(
                            (
                                buffer_view,
                                uint_or(v.field("byteOffset"@), 0) as usize,
                                component_type as u32,
                                count as usize,
                                element_type,
                                match v.field("normalized"@) {
                                    Some(x) => match x.flag_spec() {
                                        Some(b) => b,
                                        None => false,
                                    },
                                    None => false,
                                },
                            ),
                        ),
                    },
                },
            },
        }
    }
}

pub open spec fn accessor_parser() -> spec_fn(JsonValue) -> Result<(Option<usize>, usize, u32, usize, Seq<char>, bool), ImportFault> {
    |v: JsonValue| accessor_spec(v)
}

/// Reads one accessor object.
pub fn parse_accessor(value: &JsonValue) -> (r: Result<Accessor, GltfImportError>)
    ensures
        match accessor_spec(*value) {
            Ok(a) => r matches Ok(acc) && accessor_view(acc) == a,
            Err(f) => r matches Err(e) && e.fault() == f,
        },
{
    let is_object = match value {
        JsonValue::Object(_) => true,
        _ => false,
    };
    if !is_object {
        return Err(json_error("accessor must be an object"));
    }
    if value.get("sparse").is_some() {
        return Err(GltfImportError::Unsupported("sparse accessors"));
    }
    let buffer_view = match read_optional_index(value, "bufferView", "bufferView must be u64") {
        Ok(v) => v,
        Err(e) => return Err(e),
    };
    let byte_offset = read_uint_or(value, "byteOffset", 0) as usize;
    let component_type = match read_required_uint(value, "componentType", "componentType missing") {
        Ok(v) => v as u32,
        Err(e) => return Err(e),
    };
    let count = match read_required_uint(value, "count", "count missing") {
        Ok(v) => v as usize,
        Err(e) => return Err(e),
    };
    let element_type = match read_text_member(value, "type") {
        Some(t) => t,
        None => return Err(json_error("type missing")),
    };
    let normalized = match value.get("normalized") {
        Some(x) => match x.as_bool() {
            Some(b) => b,
            None => false,
        },
        None => false,
    };
    Ok(Accessor { buffer_view, byte_offset, component_type, count, element_type, normalized })
}

/// A buffer-view object, or the first reason it is rejected.
pub open spec fn buffer_view_spec(v: JsonValue) -> Result<BufferView, ImportFault> {
    if !v.is_object() {
        Err(ImportFault::Json("bufferView must be an object"@))
    } else {
        match required_uint(v.field("buffer"@), "bufferView.buffer missing"@) {
            Err(e) => Err(e),
            Ok(buffer) => match required_uint(v.field("byteLength"@), "byteLength missing"@) {
                Err(e) => Err(e),
                Ok(byte_length) => match optional_index(v.field("byteStride"@), "byteStride must be u64"@) {
                    Err(e) => Err(e),
                    Ok(byte_stride) => Ok(
                        BufferView {
                            buffer: buffer as usize,
                            byte_offset: uint_or(v.field("byteOffset"@), 0) as usize,
                            byte_length: byte_length as usize,
                            byte_stride,
                        },
                    ),
                },
            },
        }
    }
}

pub open spec fn buffer_view_parser() -> spec_fn(JsonValue) -> Result<BufferView, ImportFault> {
    |v: JsonValue| buffer_view_spec(v)
}

/// Reads one buffer-view object.
pub fn parse_buffer_view(value: &JsonValue) -> (r: Result<BufferView, GltfImportError>)
    ensures
        match buffer_view_spec(*value) {
            Ok(b) => r == Ok::<BufferView, GltfImportError>(b),
            Err(f) => r matches Err(e) && e.fault() == f,
        },
{
    let is_object = match value {
        JsonValue::Object(_) => true,
        _ => false,
    };
    if !is_object {
        return Err(json_error("bufferView must be an object"));
    }
    let buffer = match read_required_uint(value, "buffer", "bufferView.buffer missing") {
        Ok(v) => v as usize,
        Err(e) => return Err(e),
    };
    let byte_offset = read_uint_or(value, "byteOffset", 0) as usize;
    let byte_length = match read_required_uint(value, "byteLength", "byteLength missing") {
        Ok(v) => v as usize,
        Err(e) => return Err(e),
    };
    let byte_stride = match read_optional_index(value, "byteStride", "byteStride must be u64") {
        Ok(v) => v,
        Err(e) => return Err(e),
    };
    Ok(BufferView { buffer, byte_offset, byte_length, byte_stride })
}

/// A buffer object: its length and optional URI, or the first reason it is rejected.
pub open spec fn buffer_spec(v: JsonValue) -> Result<(usize, Option<Seq<char>>), ImportFault> {
    if !v.is_object() {
        Err(ImportFault::Json("buffer must be an object"@))
    } else {
        match required_uint(v.field("byteLength"@), "buffer.byteLength missing"@) {
            Err(e) => Err(e),
            Ok(n) => Ok((n as usize, text_member(v.field("uri"@)))),
        }
    }
}

pub open spec fn buffer_parser() -> spec_fn(JsonValue) -> Result<(usize, Option<Seq<char>>), ImportFault> {
    |v: JsonValue| buffer_spec(v)
}

/// Reads one buffer object.
pub fn parse_buffer(value: &JsonValue) -> (r: Result<BufferDesc, GltfImportError>)
    ensures
        match buffer_spec(*value) {
            Ok(b) => r matches Ok(desc) && buffer_view_of(desc) == b,
            Err(f) => r matches Err(e) && e.fault() == f,
        },
{
    let is_object = match value {
        JsonValue::Object(_) => true,
        _ => false,
    };
    if !is_object {
        return Err(json_error("buffer must be an object"));
    }
    let byte_length = match read_required_uint(value, "byteLength", "buffer.byteLength missing") {
        Ok(v) => v as usize,
        Err(e) => return Err(e),
    };
    Ok(BufferDesc { byte_length, uri: read_text_member(value, "uri") })
}

/// Whether a glTF `asset.version` is one this importer reads: `2` or `2.` followed by a minor.
pub open spec fn version_supported(ver: Seq<char>) -> bool {
    (ver.len() >= 2 && ver[0] == '2' && ver[1] == '.') || ver == "2"@
}

/// Whether a member is a non-empty array.
pub open spec fn nonempty_array(v: Option<JsonValue>) -> bool {
    match v {
        Some(JsonValue::Array(items)) => items@.len() > 0,
        _ => false,
    }
}

/// Why a document root is rejected before its contents are read, if it is.
pub open spec fn root_check(root: JsonValue) -> Option<ImportFault> {
    match root.field("asset"@) {
        Some(asset) => if !asset.is_object() {
            Some(ImportFault::Json("missing asset"@))
        } else {
            match text_member(asset.field("version"@)) {
                None => Some(ImportFault::Json("missing asset.version"@)),
                Some(ver) => if !version_supported(ver) {
                    Some(ImportFault::UnsupportedVersion)
                } else if nonempty_array(root.field("extensionsRequired"@)) {
                    Some(ImportFault::Unsupported("extensionsRequired is non-empty"@))
                } else if nonempty_array(root.field("skins"@)) {
                    Some(ImportFault::Unsupported("skins"@))
                } else {
                    None
                },
            }
        },
        None => Some(ImportFault::Json("missing asset"@)),
    }
}

fn version_is_supported(ver: &str) -> (r: bool)
    ensures
        r == version_supported(ver@),
{
    let n = ver.unicode_len();
    if n >= 2 && ver.get_char(0) == '2' && ver.get_char(1) == '.' {
        return true;
    }
    same_text(ver, "2")
}

fn is_nonempty_array(v: Option<&JsonValue>) -> (r: bool)
    ensures
        r == nonempty_array(match v {
            Some(x) => Some(*x),
            None => None,
        }),
{
    match v {
        Some(JsonValue::Array(items)) => items.len() > 0,
        _ => false,
    }
}

/// Checks the asset version and rejects required extensions and skins.
pub fn validate_root(root: &JsonValue) -> (r: Result<(), GltfImportError>)
    ensures
        match root_check(*root) {
            None => r is Ok,
            Some(f) => r matches Err(e) && e.fault() == f,
        },
{
    let asset = match root.get("asset") {
        Some(a) => a,
        None => return Err(json_error("missing asset")),
    };
    let is_object = match asset {
        JsonValue::Object(_) => true,
        _ => false,
    };
    if !is_object {
        return Err(json_error("missing asset"));
    }
    let version = match asset.get("version") {
        Some(v) => match v.as_str() {
            Some(text) => text,
            None => return Err(json_error("missing asset.version")),
        },
        None => return Err(json_error("missing asset.version")),
    };
    if !version_is_supported(version) {
        return Err(GltfImportError::UnsupportedVersion);
    }
    if is_nonempty_array(root.get("extensionsRequired")) {
        return Err(GltfImportError::Unsupported("extensionsRequired is non-empty"));
    }
    if is_nonempty_array(root.get("skins")) {
        return Err(GltfImportError::Unsupported("skins"));
    }
    Ok(())
}

pub open spec fn mesh_views(s: Seq<MeshNode>) -> Seq<(Option<Seq<char>>, Seq<Primitive>)> {
    s.map_values(|m: MeshNode| mesh_view(m))
}

pub open spec fn accessor_views(s: Seq<Accessor>) -> Seq<(Option<usize>, usize, u32, usize, Seq<char>, bool)> {
    s.map_values(|a: Accessor| accessor_view(a))
}

pub open spec fn buffer_views_of(s: Seq<BufferDesc>) -> Seq<(usize, Option<Seq<char>>)> {
    s.map_values(|b: BufferDesc| buffer_view_of(b))
}

fn parse_meshes(items: &Vec<JsonValue>) -> (r: Result<Vec<MeshNode>, GltfImportError>)
    ensures
        match all_parsed(items@, mesh_parser()) {
            Ok(v) => r matches Ok(out) && mesh_views(out@) == v,
            Err(f) => r matches Err(e) && e.fault() == f,
        },
{
    let mut out: Vec<MeshNode> = Vec::new();
    let mut i: usize = 0;
    proof {
        lemma_all_parsed_start(items@, mesh_parser());
        assert(mesh_views(out@) =~= Seq::empty());
    }
    while i < items.len()
        invariant
            i <= items@.len(),
            all_parsed(items@, mesh_parser()) == prepend_all(
                mesh_views(out@),
                all_parsed(items@.subrange(i as int, items@.len() as int), mesh_parser()),
            ),
        decreases items@.len() - i,
    {
        match parse_mesh(&items[i]) {
            Ok(m) => {
                proof {
                    lemma_all_parsed_step(items@, i as int, mesh_views(out@), mesh_view(m), mesh_parser());
                }
                let ghost before = out@;
                out.push(m);
                proof {
                    assert(mesh_views(out@) =~= mesh_views(before).push(mesh_view(m)));
                }
            },
            Err(e) => {
                proof {
                    lemma_all_parsed_fail(items@, i as int, mesh_views(out@), e.fault(), mesh_parser());
                }
                return Err(e);
            },
        }
        i = i + 1;
    }
    proof {
        lemma_all_parsed_end(items@, mesh_views(out@), mesh_parser());
    }
    Ok(out)
}

fn parse_accessors(items: &Vec<JsonValue>) -> (r: Result<Vec<Accessor>, GltfImportError>)
    ensures
        match all_parsed(items@, accessor_parser()) {
            Ok(v) => r matches Ok(out) && accessor_views(out@) == v,
            Err(f) => r matches Err(e) && e.fault() == f,
        },
{
    let mut out: Vec<Accessor> = Vec::new();
    let mut i: usize = 0;
    proof {
        lemma_all_parsed_start(items@, accessor_parser());
        assert(accessor_views(out@) =~= Seq::empty());
    }
    while i < items.len()
        invariant
            i <= items@.len(),
            all_parsed(items@, accessor_parser()) == prepend_all(
                accessor_views(out@),
                all_parsed(items@.subrange(i as int, items@.len() as int), accessor_parser()),
            ),
        decreases items@.len() - i,
    {
        match parse_accessor(&items[i]) {
            Ok(a) => {
                proof {
                    lemma_all_parsed_step(items@, i as int, accessor_views(out@), accessor_view(a), accessor_parser());
                }
                let ghost before = out@;
                out.push(a);
                proof {
                    assert(accessor_views(out@) =~= accessor_views(before).push(accessor_view(a)));
                }
            },
            Err(e) => {
                proof {
                    lemma_all_parsed_fail(items@, i as int, accessor_views(out@), e.fault(), accessor_parser());
                }
                return Err(e);
            },
        }
        i = i + 1;
    }
    proof {
        lemma_all_parsed_end(items@, accessor_views(out@), accessor_parser());
    }
    Ok(out)
}

fn parse_buffer_views(items: &Vec<JsonValue>) -> (r: Result<Vec<BufferView>, GltfImportError>)
    ensures
        match all_parsed(items@, buffer_view_parser()) {
            Ok(v) => r matches Ok(out) && out@ == v,
            Err(f) => r matches Err(e) && e.fault() == f,
        },
{
    let mut out: Vec<BufferView> = Vec::new();
    let mut i: usize = 0;
    proof {
        lemma_all_parsed_start(items@, buffer_view_parser());
    }
    while i < items.len()
        invariant
            i <= items@.len(),
            all_parsed(items@, buffer_view_parser()) == prepend_all(
                out@,
                all_parsed(items@.subrange(i as int, items@.len() as int), buffer_view_parser()),
            ),
        decreases items@.len() - i,
    {
        match parse_buffer_view(&items[i]) {
            Ok(b) => {
                proof {
                    lemma_all_parsed_step(items@, i as int, out@, b, buffer_view_parser());
                }
                out.push(b);
            },
            Err(e) => {
                proof {
                    lemma_all_parsed_fail(items@, i as int, out@, e.fault(), buffer_view_parser());
                }
                return Err(e);
            },
        }
        i = i + 1;
    }
    proof {
        lemma_all_parsed_end(items@, out@, buffer_view_parser());
    }
    Ok(out)
}

fn parse_buffers(items: &Vec<JsonValue>) -> (r: Result<Vec<BufferDesc>, GltfImportError>)
    ensures
        match all_parsed(items@, buffer_parser()) {
            Ok(v) => r matches Ok(out) && buffer_views_of(out@) == v,
            Err(f) => r matches Err(e) && e.fault() == f,
        },
{
    let mut out: Vec<BufferDesc> = Vec::new();
    let mut i: usize = 0;
    proof {
        lemma_all_parsed_start(items@, buffer_parser());
        assert(buffer_views_of(out@) =~= Seq::empty());
    }
    while i < items.len()
        invariant
            i <= items@.len(),
            all_parsed(items@, buffer_parser()) == prepend_all(
                buffer_views_of(out@),
                all_parsed(items@.subrange(i as int, items@.len() as int), buffer_parser()),
            ),
        decreases items@.len() - i,
    {
        match parse_buffer(&items[i]) {
            Ok(b) => {
                proof {
                    lemma_all_parsed_step(items@, i as int, buffer_views_of(out@), buffer_view_of(b), buffer_parser());
                }
                let ghost before = out@;
                out.push(b);
                proof {
                    assert(buffer_views_of(out@) =~= buffer_views_of(before).push(buffer_view_of(b)));
                }
            },
            Err(e) => {
                proof {
                    lemma_all_parsed_fail(items@, i as int, buffer_views_of(out@), e.fault(), buffer_parser());
                }
                return Err(e);
            },
        }
        i = i + 1;
    }
    proof {
        lemma_all_parsed_end(items@, buffer_views_of(out@), buffer_parser());
    }
    Ok(out)
}

/// The array member `key` of the root; a missing or non-array member reads as empty.
pub open spec fn root_list(root: JsonValue, key: Seq<char>) -> Seq<JsonValue> {
    match root.field(key) {
        Some(JsonValue::Array(items)) => items@,
        _ => Seq::empty(),
    }
}

/// Whether some buffer names a non-empty external URI.
pub open spec fn has_external_uri(buffers: Seq<(usize, Option<Seq<char>>)>) -> bool {
    exists|i: int| 0 <= i < buffers.len() && ((#[trigger] buffers[i]).1 matches Some(u) && u.len() > 0)
}

/// Why the integer structure of a document is rejected, if it is: the meshes, accessors,
/// buffer views and buffers are read in that order, at least one mesh and one buffer are
/// needed, and buffers must be embedded.
pub open spec fn document_check(root: JsonValue) -> Option<ImportFault> {
    match all_parsed(root_list(root, "meshes"@), mesh_parser()) {
        Err(e) => Some(e),
        Ok(meshes) => if meshes.len() == 0 {
            Some(ImportFault::Json("no meshes"@))
        } else {
            match all_parsed(root_list(root, "accessors"@), accessor_parser()) {
                Err(e) => Some(e),
                Ok(_) => match all_parsed(root_list(root, "bufferViews"@), buffer_view_parser()) {
                    Err(e) => Some(e),
                    Ok(_) => match all_parsed(root_list(root, "buffers"@), buffer_parser()) {
                        Err(e) => Some(e),
                        Ok(buffers) => if buffers.len() == 0 {
                            Some(ImportFault::Json("no buffers"@))
                        } else if has_external_uri(buffers) {
                            Some(ImportFault::Unsupported("external buffer URI"@))
                        } else {
                            None
                        },
                    },
                },
            }
        },
    }
}

fn read_list<'a>(root: &'a JsonValue, key: &str) -> (r: Option<&'a Vec<JsonValue>>)
    ensures
        match r {
            Some(items) => root_list(*root, key@) == items@,
            None => root_list(*root, key@) == Seq::<JsonValue>::empty(),
        },
{
    match root.get(key) {
        Some(JsonValue::Array(items)) => Some(items),
        _ => None,
    }
}

/// `d` holds the meshes, accessors, buffer views and buffers read from `root`, in order.
pub open spec fn parsed_as(root: JsonValue, d: GlbDocument) -> bool {
    &&& all_parsed(root_list(root, "meshes"@), mesh_parser()) == Ok::<
        Seq<(Option<Seq<char>>, Seq<Primitive>)>,
        ImportFault,
    >(mesh_views(d.meshes@))
    &&& all_parsed(root_list(root, "accessors"@), accessor_parser()) == Ok::<
        Seq<(Option<usize>, usize, u32, usize, Seq<char>, bool)>,
        ImportFault,
    >(accessor_views(d.layout.accessors@))
    &&& all_parsed(root_list(root, "bufferViews"@), buffer_view_parser()) == Ok::<Seq<BufferView>, ImportFault>(
        d.layout.buffer_views@,
    )
    &&& all_parsed(root_list(root, "buffers"@), buffer_parser()) == Ok::<
        Seq<(usize, Option<Seq<char>>)>,
        ImportFault,
    >(buffer_views_of(d.buffers@))
}

impl GlbDocument {
    /// Reads the meshes, accessors, buffer views and buffers of a document root.
    pub fn parse(root: &JsonValue) -> (r: Result<GlbDocument, GltfImportError>)
        ensures
            match document_check(*root) {
                Some(f) => r matches Err(e) && e.fault() == f,
                None => r matches Ok(d) && parsed_as(*root, d),
            },
    {
        let meshes = match read_list(root, "meshes") {
            Some(items) => match parse_meshes(items) {
                Ok(m) => m,
                Err(e) => return Err(e),
            },
            None => Vec::new(),
        };
        proof {
            assert(mesh_views(Seq::<MeshNode>::empty()) =~= Seq::empty());
        }
        if meshes.len() == 0 {
            return Err(json_error("no meshes"));
        }
        let accessors = match read_list(root, "accessors") {
            Some(items) => match parse_accessors(items) {
                Ok(a) => a,
                Err(e) => return Err(e),
            },
            None => Vec::new(),
        };
        proof {
            assert(accessor_views(Seq::<Accessor>::empty()) =~= Seq::empty());
        }
        let buffer_views = match read_list(root, "bufferViews") {
            Some(items) => match parse_buffer_views(items) {
                Ok(b) => b,
                Err(e) => return Err(e),
            },
            None => Vec::new(),
        };
        let buffers = match read_list(root, "buffers") {
            Some(items) => match parse_buffers(items) {
                Ok(b) => b,
                Err(e) => return Err(e),
            },
            None => Vec::new(),
        };
        proof {
            assert(buffer_views_of(Seq::<BufferDesc>::empty()) =~= Seq::empty());
        }
        if buffers.len() == 0 {
            return Err(json_error("no buffers"));
        }
        let mut i: usize = 0;
        while i < buffers.len()
            invariant
                i <= buffers@.len(),
                forall|k: int| 0 <= k < i ==> !((#[trigger] buffer_views_of(buffers@)[k]).1 matches Some(u) && u.len() > 0),
                document_check(*root) == (if has_external_uri(buffer_views_of(buffers@)) {
                    Some(ImportFault::Unsupported("external buffer URI"@))
                } else {
                    None
                }),
                all_parsed(root_list(*root, "meshes"@), mesh_parser()) == Ok::<
                    Seq<(Option<Seq<char>>, Seq<Primitive>)>,
                    ImportFault,
                >(mesh_views(meshes@)),
                all_parsed(root_list(*root, "accessors"@), accessor_parser()) == Ok::<
                    Seq<(Option<usize>, usize, u32, usize, Seq<char>, bool)>,
                    ImportFault,
                >(accessor_views(accessors@)),
                all_parsed(root_list(*root, "bufferViews"@), buffer_view_parser()) == Ok::<Seq<BufferView>, ImportFault>(
                    buffer_views@,
                ),
                all_parsed(root_list(*root, "buffers"@), buffer_parser()) == Ok::<
                    Seq<(usize, Option<Seq<char>>)>,
                    ImportFault,
                >(buffer_views_of(buffers@)),
            decreases buffers@.len() - i,
        {
            let external = match &buffers[i].uri {
                Some(uri) => !uri.as_str().is_empty(),
                None => false,
            };
            if external {
                proof {
                    assert(buffer_views_of(buffers@)[i as int].1 matches Some(u) && u.len() > 0);
                }
                return Err(GltfImportError::Unsupported("external buffer URI"));
            }
            i = i + 1;
        }
        Ok(GlbDocument { meshes, layout: GlbLayout { accessors, buffer_views }, buffers })
    }
}

/// Why a primitive is not imported as a static triangle list, if it is not; otherwise its
/// position accessor.
pub open spec fn primitive_check(p: Primitive) -> Result<usize, ImportFault> {
    if p.mode != MODE_TRIANGLES {
        Err(ImportFault::Unsupported("non-TRIANGLES primitive mode"@))
    } else if p.attributes.joints_0 is Some || p.attributes.weights_0 is Some {
        Err(ImportFault::Unsupported("skinned primitive attributes"@))
    } else {
        match p.attributes.position {
            None => Err(ImportFault::MissingAttribute("POSITION"@)),
            Some(index) => Ok(index),
        }
    }
}

/// Accepts triangle-list primitives without skinning that name a position accessor.
pub fn check_primitive(primitive: &Primitive) -> (r: Result<usize, GltfImportError>)
    ensures
        match primitive_check(*primitive) {
            Ok(index) => r == Ok::<usize, GltfImportError>(index),
            Err(f) => r matches Err(e) && e.fault() == f,
        },
{
    if primitive.mode != MODE_TRIANGLES {
        return Err(GltfImportError::Unsupported("non-TRIANGLES primitive mode"));
    }
    if primitive.attributes.joints_0.is_some() || primitive.attributes.weights_0.is_some() {
        return Err(GltfImportError::Unsupported("skinned primitive attributes"));
    }
    match primitive.attributes.position {
        None => Err(GltfImportError::MissingAttribute("POSITION")),
        Some(index) => Ok(index),
    }
}

/// The bytes of buffer 0 within the BIN chunk, or why they cannot be had: the chunk must
/// hold at least the declared length, may be absent only for an empty buffer, and exactly
/// one buffer is accepted.
pub open spec fn bin_range(buffers: Seq<(usize, Option<Seq<char>>)>, bin: Option<Seq<u8>>) -> Result<Seq<u8>, ImportFault> {
    let first = if buffers.len() > 0 { Some(buffers[0].0) } else { None };
    let selected: Result<Seq<u8>, ImportFault> = match (bin, first) {
        (Some(bytes), Some(len)) => if bytes.len() < len {
            Err(ImportFault::Truncated)
        } else {
            Ok(bytes.subrange(0, len as int))
        },
        (None, Some(len)) => if len == 0 {
            Ok(Seq::empty())
        } else {
            Err(ImportFault::Unsupported("missing BIN chunk"@))
        },
        (None, None) => Err(ImportFault::Unsupported("missing BIN chunk"@)),
        (Some(_), None) => Err(ImportFault::Json("buffer[0] missing"@)),
    };
    match selected {
        Err(e) => Err(e),
        Ok(b) => if buffers.len() != 1 {
            Err(ImportFault::Unsupported("only a single GLB BIN buffer is accepted"@))
        } else {
            Ok(b)
        },
    }
}

impl GlbDocument {
    /// The bytes of the single embedded buffer.
    pub fn select_bin<'a>(&self, bin: Option<&'a [u8]>) -> (r: Result<&'a [u8], GltfImportError>)
        ensures
            match bin_range(
                buffer_views_of(self.buffers@),
                match bin {
                    Some(b) => Some(b@),
                    None => None,
                },
            ) {
                Ok(bytes) => r matches Ok(s) && s@ == bytes,
                Err(f) => r matches Err(e) && e.fault() == f,
            },
    {
        let empty: &'a [u8] = &[];
        assert(empty@ =~= Seq::<u8>::empty());
        let selected: &'a [u8] = if self.buffers.len() > 0 {
            let len = self.buffers[0].byte_length;
            match bin {
                Some(bytes) => {
                    if bytes.len() < len {
                        return Err(GltfImportError::Truncated);
                    }
                    &bytes[0..len]
                },
                None => {
                    if len != 0 {
                        return Err(GltfImportError::Unsupported("missing BIN chunk"));
                    }
                    empty
                },
            }
        } else {
            match bin {
                None => return Err(GltfImportError::Unsupported("missing BIN chunk")),
                Some(_) => return Err(json_error("buffer[0] missing")),
            }
        };
        if self.buffers.len() != 1 {
            return Err(GltfImportError::Unsupported("only a single GLB BIN buffer is accepted"));
        }
        Ok(selected)
    }
}

} // verus!
