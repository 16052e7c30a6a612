//! Bounded CPU-side RGBA8 texture payloads for the native mesh pipeline.
use std::sync::Arc;
use vstd::prelude::*;

verus! {

/// Per-texture dimension cap. Importers must downscale or reject larger inputs explicitly.
pub const MAX_TEXTURE_DIMENSION: u32 = 4096;

/// Per-texture pixel cap, allowing one 4096x4096 RGBA8 image.
pub const MAX_TEXTURE_PIXELS: u64 = 16_777_216;

/// Exact maximum accepted RGBA8 payload bytes for one texture.
pub const MAX_TEXTURE_BYTES: usize = 67_108_864;

/// How RGB bytes are interpreted before lighting. Alpha remains linear in both modes.
#[derive(Clone, Copy, Debug, PartialEq, Eq, Structural)]
pub enum TextureColorSpace {
    Linear,
    Srgb,
}

/// Fail-closed validation errors for texture/material data before GPU upload.
#[derive(Clone, Copy, Debug, PartialEq, Eq, Structural)]
pub enum TextureError {
    InvalidExtent,
    InvalidDataLength,
    InvalidUv,
    InvalidMaterial,
    Capacity,
}

impl TextureError {
    pub open spec fn name(self) -> Seq<char> {
        match self {
            TextureError::InvalidExtent => "InvalidExtent"@,
            TextureError::InvalidDataLength => "InvalidDataLength"@,
            TextureError::InvalidUv => "InvalidUv"@,
            TextureError::InvalidMaterial => "InvalidMaterial"@,
            TextureError::Capacity => "Capacity"@,
        }
    }

    /// Stable user-facing message.
    pub fn message(&self) -> (s: String)
        ensures
            s@ == "texture/material input rejected: "@ + self.name(),
    {
        let mut text = String::from_str("texture/material input rejected: ");
        let name = match self {
            TextureError::InvalidExtent => "InvalidExtent",
            TextureError::InvalidDataLength => "InvalidDataLength",
            TextureError::InvalidUv => "InvalidUv",
            TextureError::InvalidMaterial => "InvalidMaterial",
            TextureError::Capacity => "Capacity",
        };
        text.append(name);
        text
    }
}

/// Why an RGBA8 texture of this extent and payload length is rejected, if it is.
pub open spec fn rgba8_check(width: u32, height: u32, len: int) -> Option<TextureError> {
    if width == 0 || height == 0 || width > MAX_TEXTURE_DIMENSION || height > MAX_TEXTURE_DIMENSION {
        Some(TextureError::InvalidExtent)
    } else if width * height > MAX_TEXTURE_PIXELS {
        Some(TextureError::Capacity)
    } else if len != 4 * width * height {
        Some(TextureError::InvalidDataLength)
    } else {
        None
    }
}

/// An accepted payload holds exactly four bytes per texel of a non-empty extent within
/// the caps; any other length is refused.
pub proof fn lemma_accepted_payload_is_exact(width: u32, height: u32, len: int)
    ensures
        rgba8_check(width, height, len) is None ==> {
            &&& len == 4 * width * height
            &&& 0 < width <= MAX_TEXTURE_DIMENSION
            &&& 0 < height <= MAX_TEXTURE_DIMENSION
            &&& width * height <= MAX_TEXTURE_PIXELS
        },
        len != 4 * width * height ==> rgba8_check(width, height, len) is Some,
{
}

/// Immutable validated RGBA8 texture payload.
///
/// Texel `(0, 0)` is the first four payload bytes; rows follow each other top to bottom.
#[derive(Debug)]
pub struct TextureData {
    width: u32,
    height: u32,
    rgba8: Vec<u8>,
    color_space: TextureColorSpace,
}

impl TextureData {
    pub closed spec fn width_spec(&self) -> u32 {
        self.width
    }

    pub closed spec fn height_spec(&self) -> u32 {
        self.height
    }

    pub closed spec fn bytes_spec(&self) -> Seq<u8> {
        self.rgba8@
    }

    pub closed spec fn color_space_spec(&self) -> TextureColorSpace {
        self.color_space
    }

    /// The extent is within the caps and the payload holds exactly four bytes per texel.
    pub closed spec fn wf(&self) -> bool {
        rgba8_check(self.width, self.height, self.rgba8@.len() as int) is None
    }

    /// Validates extent and exact RGBA8 payload length before taking ownership.
    pub fn new_rgba8(width: u32, height: u32, rgba8: Vec<u8>, color_space: TextureColorSpace) -> (r: Result<
        Arc<Self>,
        TextureError,
    >)
        ensures
            match rgba8_check(width, height, rgba8@.len() as int) {
                Some(e) => r == Err::<Arc<Self>, TextureError>(e),
                None => r matches Ok(t) && t.wf() && t.width_spec() == width && t.height_spec() == height
                    && t.bytes_spec() == rgba8@ && t.color_space_spec() == color_space,
            },
            r is Ok ==> rgba8@.len() == 4 * width * height,
            rgba8@.len() != 4 * width * height ==> r is Err,
    {
        if width == 0 || height == 0 || width > MAX_TEXTURE_DIMENSION || height > MAX_TEXTURE_DIMENSION {
            return Err(TextureError::InvalidExtent);
        }
        let w = width as u64;
        let h = height as u64;
        assert(w * h <= 4096 * 4096) by (nonlinear_arith)
            requires
                w <= 4096,
                h <= 4096,
        ;
        let pixels = w * h;
        if pixels > MAX_TEXTURE_PIXELS {
            return Err(TextureError::Capacity);
        }
        assert(pixels * 4 == 4 * width * height) by (nonlinear_arith)
            requires
                pixels == w * h,
                w == width,
                h == height,
        ;
        let bytes = (pixels * 4) as usize;
        if rgba8.len() != bytes {
            return Err(TextureError::InvalidDataLength);
        }
        Ok(Arc::new(TextureData { width, height, rgba8, color_space }))
    }

    pub fn width(&self) -> (r: u32)
        ensures
            r == self.width_spec(),
    {
        self.width
    }

    pub fn height(&self) -> (r: u32)
        ensures
            r == self.height_spec(),
    {
        self.height
    }

    pub fn rgba8(&self) -> (r: &[u8])
        ensures
            r@ == self.bytes_spec(),
    {
        self.rgba8.as_slice()
    }

    pub fn color_space(&self) -> (r: TextureColorSpace)
        ensures
            r == self.color_space_spec(),
    {
        self.color_space
    }

    /// Exact texture payload bytes, excluding allocator/GPU-driver overhead.
    pub fn payload_bytes(&self) -> (r: usize)
        ensures
            r == self.bytes_spec().len(),
    {
        self.rgba8.len()
    }

    /// The four bytes of texel `(x, y)`, `x` counted from the left and `y` from the top.
    pub fn texel(&self, x: u32, y: u32) -> (r: [u8; 4])
        requires
            self.wf(),
            x < self.width_spec(),
            y < self.height_spec(),
        ensures
            ({
                let base = 4 * (y * self.width_spec() + x);
                r@ == self.bytes_spec().subrange(base, base + 4)
            }),
    {
        let w = self.width as usize;
        let row = y as usize;
        let column = x as usize;
        assert(row * w + column < w * self.height as usize) by (nonlinear_arith)
            requires
                row < self.height as usize,
                column < w,
        ;
        assert(w * (self.height as usize) <= 16_777_216) by (nonlinear_arith)
            requires
                w * (self.height as usize) == self.width * self.height,
                self.width * self.height <= 16_777_216,
        ;
        assert(4 * (row * w + column) + 4 <= 4 * (w * (self.height as usize))) by (nonlinear_arith)
            requires
                row * w + column < w * self.height as usize,
        ;
        assert(self.rgba8@.len() == 4 * (w * (self.height as usize))) by (nonlinear_arith)
            requires
                self.rgba8@.len() == 4 * self.width * self.height,
                w == self.width,
        ;
        let base = 4 * (row * w + column);
        let r = [self.rgba8[base], self.rgba8[base + 1], self.rgba8[base + 2], self.rgba8[base + 3]];
        assert(r@ =~= self.rgba8@.subrange(base as int, base as int + 4));
        r
    }
}

} // verus!
