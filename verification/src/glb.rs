//! Fail-closed framing of binary glTF (GLB) containers and decoding of index accessors.
//!
//! A GLB file is a 12-byte header (magic, version, total length) followed by chunks, each a
//! little-endian length, a type and that many bytes. Exactly one JSON chunk is required and at
//! most one BIN chunk is accepted.
use crate::text::{decimal_text, same_text, usize_text};
use vstd::prelude::*;

verus! {

pub const GLB_MAGIC: u32 = 0x4654_6C67;
pub const GLB_VERSION: u32 = 2;
pub const CHUNK_JSON: u32 = 0x4E4F_534A;
pub const CHUNK_BIN: u32 = 0x004E_4942;
pub const COMPONENT_BYTE: u32 = 5120;
pub const COMPONENT_UNSIGNED_BYTE: u32 = 5121;
pub const COMPONENT_SHORT: u32 = 5122;
pub const COMPONENT_UNSIGNED_SHORT: u32 = 5123;
pub const COMPONENT_UNSIGNED_INT: u32 = 5125;
pub const COMPONENT_FLOAT: u32 = 5126;

/// Errors produced while validating or decoding a static GLB payload.
#[derive(Clone, Debug, PartialEq, Eq)]
pub enum GltfImportError {
    Truncated,
    InvalidMagic,
    UnsupportedVersion,
    ChunkLayout,
    Json(String),
    Unsupported(&'static str),
    MissingAttribute(&'static str),
    Accessor(String),
    Capacity,
    Mesh(String),
    Texture(String),
}

/// An import error with its text taken by value, for use in contracts.
pub enum ImportFault {
    Truncated,
    InvalidMagic,
    UnsupportedVersion,
    ChunkLayout,
    Json(Seq<char>),
    Unsupported(Seq<char>),
    MissingAttribute(Seq<char>),
    Accessor(Seq<char>),
    Capacity,
    Mesh(Seq<char>),
    Texture(Seq<char>),
}

impl GltfImportError {
    pub open spec fn fault(&self) -> ImportFault {
        match *self {
            GltfImportError::Truncated => ImportFault::Truncated,
            GltfImportError::InvalidMagic => ImportFault::InvalidMagic,
            GltfImportError::UnsupportedVersion => ImportFault::UnsupportedVersion,
            GltfImportError::ChunkLayout => ImportFault::ChunkLayout,
            GltfImportError::Json(m) => ImportFault::Json(m@),
            GltfImportError::Unsupported(m) => ImportFault::Unsupported(m@),
            GltfImportError::MissingAttribute(m) => ImportFault::MissingAttribute(m@),
            GltfImportError::Accessor(m) => ImportFault::Accessor(m@),
            GltfImportError::Capacity => ImportFault::Capacity,
            GltfImportError::Mesh(m) => ImportFault::Mesh(m@),
            GltfImportError::Texture(m) => ImportFault::Texture(m@),
        }
    }
}

/// Little-endian `u16` at `off`.
pub open spec fn le_u16(s: Seq<u8>, off: int) -> int {
    s[off] + 256 * s[off + 1]
}

/// Little-endian `u32` at `off`.
pub open spec fn le_u32(s: Seq<u8>, off: int) -> int {
    s[off] + 256 * s[off + 1] + 65536 * s[off + 2] + 16777216 * s[off + 3]
}

/// Reads a little-endian `u16`; `Truncated` when the two bytes are not all present.
pub fn read_u16(bytes: &[u8], offset: usize) -> (r: Result<u16, GltfImportError>)
    requires
        offset <= usize::MAX - 2,
    ensures
        offset + 2 <= bytes@.len() ==> (r matches Ok(v) && v == le_u16(bytes@, offset as int)),
        offset + 2 > bytes@.len() ==> r == Err::<u16, GltfImportError>(GltfImportError::Truncated),
{
    if offset + 2 > bytes.len() {
        return Err(GltfImportError::Truncated);
    }
    let low = bytes[offset] as u16;
    let high = bytes[offset + 1] as u16;
    Ok(low + high * 256)
}

/// Reads a little-endian `u32`; `Truncated` when the four bytes are not all present.
pub fn read_u32(bytes: &[u8], offset: usize) -> (r: Result<u32, GltfImportError>)
    requires
        offset <= usize::MAX - 4,
    ensures
        offset + 4 <= bytes@.len() ==> (r matches Ok(v) && v == le_u32(bytes@, offset as int)),
        offset + 4 > bytes@.len() ==> r == Err::<u32, GltfImportError>(GltfImportError::Truncated),
{
    if offset + 4 > bytes.len() {
        return Err(GltfImportError::Truncated);
    }
    let b0 = bytes[offset] as u32;
    let b1 = bytes[offset + 1] as u32;
    let b2 = bytes[offset + 2] as u32;
    let b3 = bytes[offset + 3] as u32;
    Ok(b0 + b1 * 256 + b2 * 65536 + b3 * 16777216)
}

pub open spec fn bytes_view(b: Option<Vec<u8>>) -> Option<Seq<u8>> {
    match b {
        Some(v) => Some(v@),
        None => None,
    }
}

/// The chunks from `offset` on, given the JSON and BIN chunks met so far.
pub open spec fn glb_chunks(
    bytes: Seq<u8>,
    offset: int,
    json: Option<Seq<u8>>,
    bin: Option<Seq<u8>>,
) -> Result<(Seq<u8>, Option<Seq<u8>>), ImportFault>
    decreases bytes.len() - offset,
{
    if offset + 8 <= bytes.len() {
        let chunk_length = le_u32(bytes, offset);
        let chunk_type = le_u32(bytes, offset + 4);
        let start = offset + 8;
        let end = start + chunk_length;
        if end > usize::MAX {
            Err(ImportFault::ChunkLayout)
        } else if end > bytes.len() {
            Err(ImportFault::Truncated)
        } else if chunk_type == CHUNK_JSON && json is None {
            glb_chunks(bytes, end, Some(bytes.subrange(start, end)), bin)
        } else if chunk_type == CHUNK_BIN && bin is None {
            glb_chunks(bytes, end, json, Some(bytes.subrange(start, end)))
        } else if chunk_type == CHUNK_JSON || chunk_type == CHUNK_BIN {
            Err(ImportFault::ChunkLayout)
        } else {
            Err(ImportFault::Unsupported("unknown GLB chunk type"@))
        }
    } else if offset != bytes.len() {
        Err(ImportFault::ChunkLayout)
    } else {
        match json {
            None => Err(ImportFault::ChunkLayout),
            Some(j) => Ok((j, bin)),
        }
    }
}

/// The JSON chunk and optional BIN chunk of a GLB container, or why it is rejected.
pub open spec fn glb_split(bytes: Seq<u8>) -> Result<(Seq<u8>, Option<Seq<u8>>), ImportFault> {
    if bytes.len() < 12 {
        Err(ImportFault::Truncated)
    } else if le_u32(bytes, 0) != GLB_MAGIC {
        Err(ImportFault::InvalidMagic)
    } else if le_u32(bytes, 4) != GLB_VERSION {
        Err(ImportFault::UnsupportedVersion)
    } else if le_u32(bytes, 8) != bytes.len() {
        Err(ImportFault::ChunkLayout)
    } else {
        glb_chunks(bytes, 12, None, None)
    }
}

/// Copies `bytes[start..end]`.
fn copy_range(bytes: &[u8], start: usize, end: usize) -> (v: Vec<u8>)
    requires
        start <= end <= bytes@.len(),
    ensures
        v@ == bytes@.subrange(start as int, end as int),
{
    vstd::slice::slice_to_vec(&bytes[start..end])
}

/// Splits a GLB container into its JSON chunk and optional BIN chunk.
pub fn split_glb(bytes: &[u8]) -> (r: Result<(Vec<u8>, Option<Vec<u8>>), GltfImportError>)
    requires
        bytes@.len() + 8 <= usize::MAX,
    ensures
        match r {
            Ok((json, bin)) => glb_split(bytes@) == Ok::<(Seq<u8>, Option<Seq<u8>>), ImportFault>((json@, bytes_view(bin))),
            Err(e) => glb_split(bytes@) == Err::<(Seq<u8>, Option<Seq<u8>>), ImportFault>(e.fault()),
        },
{
    if bytes.len() < 12 {
        return Err(GltfImportError::Truncated);
    }
    let magic = read_u32(bytes, 0)?;
    let version = read_u32(bytes, 4)?;
    let length = read_u32(bytes, 8)? as usize;
    if magic != GLB_MAGIC {
        return Err(GltfImportError::InvalidMagic);
    }
    if version != GLB_VERSION {
        return Err(GltfImportError::UnsupportedVersion);
    }
    if length != bytes.len() {
        return Err(GltfImportError::ChunkLayout);
    }
    let mut offset: usize = 12;
    let mut json: Option<Vec<u8>> = None;
    let mut bin: Option<Vec<u8>> = None;
    while offset + 8 <= bytes.len()
        invariant
            12 <= offset <= bytes@.len(),
            bytes@.len() + 8 <= usize::MAX,
            glb_split(bytes@) == glb_chunks(bytes@, offset as int, bytes_view(json), bytes_view(bin)),
        decreases bytes@.len() - offset,
    {
        let chunk_length = read_u32(bytes, offset)? as usize;
        let chunk_type = read_u32(bytes, offset + 4)?;
        let start = offset + 8;
        if chunk_length > usize::MAX - start {
            return Err(GltfImportError::ChunkLayout);
        }
        let end = start + chunk_length;
        if end > bytes.len() {
            return Err(GltfImportError::Truncated);
        }
        let data = copy_range(bytes, start, end);
        offset = end;
        if chunk_type == CHUNK_JSON && json.is_none() {
            json = Some(data);
        } else if chunk_type == CHUNK_BIN && bin.is_none() {
            bin = Some(data);
        } else if chunk_type == CHUNK_JSON || chunk_type == CHUNK_BIN {
            return Err(GltfImportError::ChunkLayout);
        } else {
            return Err(GltfImportError::Unsupported("unknown GLB chunk type"));
        }
    }
    if offset != bytes.len() {
        return Err(GltfImportError::ChunkLayout);
    }
    match json {
        None => Err(GltfImportError::ChunkLayout),
        Some(json) => Ok((json, bin)),
    }
}

/// Components per element of an accessor type.
pub open spec fn type_components(name: Seq<char>) -> Option<int> {
    if name == "SCALAR"@ {
        Some(1)
    } else if name == "VEC2"@ {
        Some(2)
    } else if name == "VEC3"@ {
        Some(3)
    } else if name == "VEC4"@ {
        Some(4)
    } else {
        None
    }
}

/// Bytes per component of a glTF component type.
pub open spec fn component_bytes(component_type: u32) -> Option<int> {
    if component_type == COMPONENT_BYTE || component_type == COMPONENT_UNSIGNED_BYTE {
        Some(1)
    } else if component_type == COMPONENT_SHORT || component_type == COMPONENT_UNSIGNED_SHORT {
        Some(2)
    } else if component_type == COMPONENT_UNSIGNED_INT || component_type == COMPONENT_FLOAT {
        Some(4)
    } else {
        None
    }
}

/// A typed view into a buffer view, as declared by the glTF document.
#[derive(Debug)]
pub struct Accessor {
    pub buffer_view: Option<usize>,
    pub byte_offset: usize,
    pub component_type: u32,
    pub count: usize,
    pub element_type: String,
    pub normalized: bool,
}

/// A byte range of the (single) binary buffer.
#[derive(Clone, Copy, Debug, PartialEq, Eq, Structural)]
pub struct BufferView {
    pub buffer: usize,
    pub byte_offset: usize,
    pub byte_length: usize,
    pub byte_stride: Option<usize>,
}

impl Accessor {
    /// Tightly packed element size: components times component bytes.
    pub open spec fn stride_spec(&self) -> Option<int> {
        match (type_components(self.element_type@), component_bytes(self.component_type)) {
            (Some(c), Some(b)) => Some(c * b),
            _ => None,
        }
    }

    /// Tightly packed element size, `None` for an unknown type or component type.
    pub fn element_stride(&self) -> (r: Option<usize>)
        ensures
            match r {
                Some(s) => self.stride_spec() == Some(s as int),
                None => self.stride_spec() is None,
            },
    {
        let name = self.element_type.as_str();
        let components: usize = if same_text(name, "SCALAR") {
            1
        } else if same_text(name, "VEC2") {
            2
        } else if same_text(name, "VEC3") {
            3
        } else if same_text(name, "VEC4") {
            4
        } else {
            return None;
        };
        let size: usize = if self.component_type == COMPONENT_BYTE || self.component_type == COMPONENT_UNSIGNED_BYTE {
            1
        } else if self.component_type == COMPONENT_SHORT || self.component_type == COMPONENT_UNSIGNED_SHORT {
            2
        } else if self.component_type == COMPONENT_UNSIGNED_INT || self.component_type == COMPONENT_FLOAT {
            4
        } else {
            return None;
        };
        Some(components * size)
    }
}

/// Byte range `[start, end)` of the binary buffer and element stride of an accessor, or why
/// the accessor cannot be read.
pub open spec fn view_range(
    views: Seq<BufferView>,
    bin_len: int,
    accessor: Accessor,
    label: Seq<char>,
) -> Result<(int, int, int), ImportFault> {
    match accessor.buffer_view {
        None => Err(ImportFault::Unsupported("accessor without bufferView"@)),
        Some(vi) => if vi >= views.len() {
            Err(ImportFault::Accessor(label + " bufferView "@ + decimal_text(vi as nat) + " missing"@))
        } else {
            let view = views[vi as int];
            let start = view.byte_offset + accessor.byte_offset;
            let end = view.byte_offset + view.byte_length;
            let stride = match view.byte_stride {
                Some(s) => s as int,
                None => match accessor.stride_spec() {
                    Some(s) => s,
                    None => 0,
                },
            };
            if view.buffer != 0 {
                Err(ImportFault::Unsupported("non-zero buffer index"@))
            } else if start > usize::MAX {
                Err(ImportFault::Accessor(label + " offset overflow"@))
            } else if end > usize::MAX {
                Err(ImportFault::Accessor(label + " view overflow"@))
            } else if end > bin_len || start > end {
                Err(ImportFault::Truncated)
            } else if stride == 0 {
                Err(ImportFault::Accessor(label + " has invalid stride"@))
            } else {
                Ok((start, end, stride))
            }
        },
    }
}

/// Index `i` of an index accessor whose elements start every `stride` bytes of `slice`.
pub open spec fn index_element(slice: Seq<u8>, component_type: u32, stride: int, i: int) -> Result<u32, ImportFault> {
    let offset = i * stride;
    if offset > usize::MAX {
        Err(ImportFault::Accessor("indices stride overflow"@))
    } else if component_type == COMPONENT_UNSIGNED_BYTE {
        if offset >= slice.len() {
            Err(ImportFault::Truncated)
        } else {
            Ok(slice[offset] as u32)
        }
    } else if component_type == COMPONENT_UNSIGNED_SHORT {
        if offset + 2 > slice.len() {
            Err(ImportFault::Truncated)
        } else {
            Ok(le_u16(slice, offset) as u32)
        }
    } else if component_type == COMPONENT_UNSIGNED_INT {
        if offset + 4 > slice.len() {
            Err(ImportFault::Truncated)
        } else {
            Ok(le_u32(slice, offset) as u32)
        }
    } else {
        Err(ImportFault::Unsupported("index component type"@))
    }
}

/// Indices `i..count`, or the error of the first element that cannot be read.
pub open spec fn indices_from(slice: Seq<u8>, component_type: u32, stride: int, i: int, count: int) -> Result<
    Seq<u32>,
    ImportFault,
>
    decreases count - i,
{
    if i >= count {
        Ok(Seq::empty())
    } else {
        match index_element(slice, component_type, stride, i) {
            Err(e) => Err(e),
            Ok(v) => match indices_from(slice, component_type, stride, i + 1, count) {
                Err(e) => Err(e),
                Ok(rest) => Ok(seq![v] + rest),
            },
        }
    }
}

/// `prefix` followed by what `rest` holds, or the error of `rest`.
pub open spec fn prepend(prefix: Seq<u32>, rest: Result<Seq<u32>, ImportFault>) -> Result<Seq<u32>, ImportFault> {
    match rest {
        Ok(r) => Ok(prefix + r),
        Err(e) => Err(e),
    }
}

/// Start of element `i` of a view of `len` bytes whose elements start every `stride` bytes
/// and take `size` bytes, or why that element cannot be read.
pub open spec fn element_offset_spec(i: int, stride: int, size: int, len: int, label: Seq<char>) -> Result<
    int,
    ImportFault,
> {
    if i * stride > usize::MAX {
        Err(ImportFault::Accessor(label + " stride overflow"@))
    } else if i * stride + size > usize::MAX {
        Err(ImportFault::Accessor(label + " element overflow"@))
    } else if i * stride + size > len {
        Err(ImportFault::Truncated)
    } else {
        Ok(i * stride)
    }
}

/// Start of element `i`, checking that its `size` bytes lie in a view of `len` bytes.
pub fn element_offset(i: usize, stride: usize, size: usize, len: usize, label: &str) -> (r: Result<
    usize,
    GltfImportError,
>)
    ensures
        match element_offset_spec(i as int, stride as int, size as int, len as int, label@) {
            Ok(o) => r == Ok::<usize, GltfImportError>(o as usize),
            Err(f) => r matches Err(e) && e.fault() == f,
        },
{
    let offset = match i.checked_mul(stride) {
        Some(o) => o,
        None => {
            let mut text = String::from_str(label);
            text.append(" stride overflow");
            return Err(GltfImportError::Accessor(text));
        },
    };
    let end = match offset.checked_add(size) {
        Some(e) => e,
        None => {
            let mut text = String::from_str(label);
            text.append(" element overflow");
            return Err(GltfImportError::Accessor(text));
        },
    };
    if end > len {
        return Err(GltfImportError::Truncated);
    }
    Ok(offset)
}

/// Indices `0, 1, .., vertex_count - 1` of a primitive without an index accessor, whose
/// vertices must then form whole triangles.
pub fn sequential_indices(vertex_count: usize) -> (r: Result<Vec<u32>, GltfImportError>)
    requires
        vertex_count <= u32::MAX,
    ensures
        vertex_count % 3 != 0 ==> (r matches Err(e) && e.fault() == ImportFault::Accessor(
            "non-indexed vertex count is not a multiple of 3"@,
        )),
        vertex_count % 3 == 0 ==> (r matches Ok(v) && v@.len() == vertex_count && forall|k: int|
            0 <= k < vertex_count ==> #[trigger] v@[k] == k),
{
    if vertex_count % 3 != 0 {
        return Err(GltfImportError::Accessor(String::from_str("non-indexed vertex count is not a multiple of 3")));
    }
    let mut out: Vec<u32> = Vec::new();
    let mut k: usize = 0;
    while k < vertex_count
        invariant
            k <= vertex_count <= u32::MAX,
            out@.len() == k,
            forall|j: int| 0 <= j < k ==> #[trigger] out@[j] == j,
        decreases vertex_count - k,
    {
        out.push(k as u32);
        k = k + 1;
    }
    Ok(out)
}

/// Integer layout of a glTF document: its accessors and buffer views.
#[derive(Debug)]
pub struct GlbLayout {
    pub accessors: Vec<Accessor>,
    pub buffer_views: Vec<BufferView>,
}

/// The index list of accessor `index` over `bin`, or why it is rejected.
pub open spec fn indices_spec(layout: GlbLayout, bin: Seq<u8>, index: int) -> Result<Seq<u32>, ImportFault> {
    if index >= layout.accessors@.len() {
        Err(ImportFault::Accessor("indices"@ + " accessor "@ + decimal_text(index as nat) + " is missing"@))
    } else {
        let accessor = layout.accessors@[index];
        if accessor.element_type@ != "SCALAR"@ {
            Err(ImportFault::Accessor("indices must be SCALAR"@))
        } else if accessor.normalized {
            Err(ImportFault::Accessor("indices must not be normalized"@))
        } else {
            match view_range(layout.buffer_views@, bin.len() as int, accessor, "indices"@) {
                Err(e) => Err(e),
                Ok((start, end, stride)) => indices_from(
                    bin.subrange(start, end),
                    accessor.component_type,
                    stride,
                    0,
                    accessor.count as int,
                ),
            }
        }
    }
}

impl GlbLayout {
    /// Accessor `index`, or an `Accessor` error naming the missing index.
    pub fn accessor(&self, index: usize, label: &str) -> (r: Result<&Accessor, GltfImportError>)
        ensures
            index < self.accessors@.len() ==> r == Ok::<&Accessor, GltfImportError>(&self.accessors@[index as int]),
            index >= self.accessors@.len() ==> (r matches Err(e) && e.fault() == ImportFault::Accessor(
                label@ + " accessor "@ + decimal_text(index as nat) + " is missing"@,
            )),
    {
        if index < self.accessors.len() {
            Ok(&self.accessors[index])
        } else {
            let mut message = label.to_owned();
            message.append(" accessor ");
            message.append(usize_text(index).as_str());
            message.append(" is missing");
            Err(GltfImportError::Accessor(message))
        }
    }

    /// The bytes of `accessor`'s buffer view and its element stride.
    pub fn view_slice<'a>(&self, bin: &'a [u8], accessor: &Accessor, label: &str) -> (r: Result<
        (&'a [u8], usize),
        GltfImportError,
    >)
        ensures
            match view_range(self.buffer_views@, bin@.len() as int, *accessor, label@) {
                Ok((start, end, stride)) => r matches Ok((s, st)) && s@ == bin@.subrange(start, end) && st == stride,
                Err(f) => r matches Err(e) && e.fault() == f,
            },
    {
        let view_index = match accessor.buffer_view {
            None => return Err(GltfImportError::Unsupported("accessor without bufferView")),
            Some(v) => v,
        };
        if view_index >= self.buffer_views.len() {
            let mut message = label.to_owned();
            message.append(" bufferView ");
            message.append(usize_text(view_index).as_str());
            message.append(" missing");
            return Err(GltfImportError::Accessor(message));
        }
        let view = self.buffer_views[view_index];
        if view.buffer != 0 {
            return Err(GltfImportError::Unsupported("non-zero buffer index"));
        }
        if view.byte_offset > usize::MAX - accessor.byte_offset {
            let mut message = label.to_owned();
            message.append(" offset overflow");
            return Err(GltfImportError::Accessor(message));
        }
        let start = view.byte_offset + accessor.byte_offset;
        if view.byte_offset > usize::MAX - view.byte_length {
            let mut message = label.to_owned();
            message.append(" view overflow");
            return Err(GltfImportError::Accessor(message));
        }
        let end = view.byte_offset + view.byte_length;
        if end > bin.len() || start > end {
            return Err(GltfImportError::Truncated);
        }
        let stride = match view.byte_stride {
            Some(s) => s,
            None => match accessor.element_stride() {
                Some(s) => s,
                None => 0,
            },
        };
        if stride == 0 {
            let mut message = label.to_owned();
            message.append(" has invalid stride");
            return Err(GltfImportError::Accessor(message));
        }
        Ok((&bin[start..end], stride))
    }

    /// Decodes the index list of accessor `index` (unsigned byte, short or int scalars).
    pub fn read_indices(&self, bin: &[u8], index: usize) -> (r: Result<Vec<u32>, GltfImportError>)
        ensures
            match indices_spec(*self, bin@, index as int) {
                Ok(v) => r matches Ok(out) && out@ == v,
                Err(f) => r matches Err(e) && e.fault() == f,
            },
    {
        let accessor = match self.accessor(index, "indices") {
            Ok(a) => a,
            Err(e) => return Err(e),
        };
        if !same_text(accessor.element_type.as_str(), "SCALAR") {
            return Err(GltfImportError::Accessor(String::from_str("indices must be SCALAR")));
        }
        if accessor.normalized {
            return Err(GltfImportError::Accessor(String::from_str("indices must not be normalized")));
        }
        let (slice, stride) = match self.view_slice(bin, accessor, "indices") {
            Ok(found) => found,
            Err(e) => return Err(e),
        };
        let count = accessor.count;
        let component_type = accessor.component_type;
        let mut out: Vec<u32> = Vec::new();
        let mut i: usize = 0;
        while i < count
            invariant
                i <= count,
                stride > 0,
                count == accessor.count,
                component_type == accessor.component_type,
                indices_spec(*self, bin@, index as int) == indices_from(slice@, component_type, stride as int, 0, count as int),
                indices_from(slice@, component_type, stride as int, 0, count as int) == prepend(
                    out@,
                    indices_from(slice@, component_type, stride as int, i as int, count as int),
                ),
            decreases count - i,
        {
            let ghost rest_after = indices_from(slice@, component_type, stride as int, i as int + 1, count as int);
            let offset = match i.checked_mul(stride) {
                Some(o) => o,
                None => return Err(GltfImportError::Accessor(String::from_str("indices stride overflow"))),
            };
            let value: u32 = if component_type == COMPONENT_UNSIGNED_BYTE {
                if offset >= slice.len() {
                    return Err(GltfImportError::Truncated);
                }
                slice[offset] as u32
            } else if component_type == COMPONENT_UNSIGNED_SHORT {
                if offset >= slice.len() || slice.len() - offset < 2 {
                    return Err(GltfImportError::Truncated);
                }
                read_u16(slice, offset)? as u32
            } else if component_type == COMPONENT_UNSIGNED_INT {
                if offset >= slice.len() || slice.len() - offset < 4 {
                    return Err(GltfImportError::Truncated);
                }
                read_u32(slice, offset)?
            } else {
                return Err(GltfImportError::Unsupported("index component type"));
            };
            proof {
                assert(index_element(slice@, component_type, stride as int, i as int) == Ok::<u32, ImportFault>(value));
                assert(prepend(out@, prepend(seq![value], rest_after)) == prepend(out@.push(value), rest_after)) by {
                    match rest_after {
                        Ok(r) => {
                            assert(out@ + (seq![value] + r) =~= out@.push(value) + r);
                        },
                        Err(_) => {},
                    }
                }
            }
            out.push(value);
            i = i + 1;
        }
        proof {
            assert(out@ + Seq::<u32>::empty() =~= out@);
        }
        Ok(out)
    }
}

} // verus!
