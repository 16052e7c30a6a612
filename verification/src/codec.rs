//! Geometry payload encodings and the capability check in front of a decoder.
use vstd::prelude::*;

verus! {

/// Geometry payload encodings accepted by the asset pipeline.
///
/// The enum names the wire representation only. It does not claim that every
/// build has a decoder for every codec.
#[derive(Clone, Copy, Debug, PartialEq, Eq, Hash, Structural)]
pub enum GeometryCodec {
    RawGltf,
    Meshopt,
    Draco,
}

impl GeometryCodec {
    pub open spec fn name(self) -> Seq<char> {
        match self {
            GeometryCodec::RawGltf => "raw-gltf"@,
            GeometryCodec::Meshopt => "meshopt"@,
            GeometryCodec::Draco => "draco"@,
        }
    }

    /// Stable wire name of the codec.
    pub fn as_str(self) -> (s: &'static str)
        ensures
            s@ == self.name(),
    {
        match self {
            GeometryCodec::RawGltf => "raw-gltf",
            GeometryCodec::Meshopt => "meshopt",
            GeometryCodec::Draco => "draco",
        }
    }
}

/// Decoder failure with no backend-specific authority over the asset registry.
#[derive(Clone, Debug, PartialEq, Eq)]
pub enum GeometryDecodeError {
    UnsupportedCodec(GeometryCodec),
    InvalidPayload(String),
}

impl GeometryDecodeError {
    /// Stable user-facing message.
    pub fn message(&self) -> (s: String)
        ensures
            s@ == match *self {
                GeometryDecodeError::UnsupportedCodec(c) => "geometry codec is not supported: "@ + c.name(),
                GeometryDecodeError::InvalidPayload(d) => "invalid geometry payload: "@ + d@,
            },
    {
        match self {
            GeometryDecodeError::UnsupportedCodec(codec) => {
                let mut text = String::from_str("geometry codec is not supported: ");
                text.append(codec.as_str());
                text
            },
            GeometryDecodeError::InvalidPayload(detail) => {
                let mut text = String::from_str("invalid geometry payload: ");
                text.append(detail.as_str());
                text
            },
        }
    }
}

/// Stable boundary between asset selection and codec implementations.
///
/// Implementations may wrap standards-compliant external libraries. Callers
/// must select the codec explicitly; implementations must not guess a codec
/// from untrusted payload bytes.
pub trait GeometryDecoder {
    type Output;

    fn supports(&self, codec: GeometryCodec) -> bool;

    fn decode(&self, codec: GeometryCodec, payload: &[u8]) -> Result<Self::Output, GeometryDecodeError>;
}

/// Decodes `payload` only after `decoder` has declared that it supports `codec`; an
/// unsupported codec is reported without the decoder seeing the payload.
pub fn decode_with<D: GeometryDecoder>(decoder: &D, codec: GeometryCodec, payload: &[u8]) -> (r: Result<
    D::Output,
    GeometryDecodeError,
>)
    ensures
        (call_ensures(D::supports, (decoder, codec), false) && r == Err::<D::Output, GeometryDecodeError>(
            GeometryDecodeError::UnsupportedCodec(codec),
        )) || (call_ensures(D::supports, (decoder, codec), true) && call_ensures(
            D::decode,
            (decoder, codec, payload),
            r,
        )),
{
    if !decoder.supports(codec) {
        return Err(GeometryDecodeError::UnsupportedCodec(codec));
    }
    decoder.decode(codec, payload)
}

} // verus!
