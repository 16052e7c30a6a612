use extrem::codec::{decode_with, GeometryCodec, GeometryDecodeError, GeometryDecoder};

struct RawOnly;

impl GeometryDecoder for RawOnly {
    type Output = Vec<u8>;

    fn supports(&self, codec: GeometryCodec) -> bool {
        codec == GeometryCodec::RawGltf
    }

    fn decode(
        &self,
        codec: GeometryCodec,
        payload: &[u8],
    ) -> Result<Self::Output, GeometryDecodeError> {
        if codec != GeometryCodec::RawGltf {
            return Err(GeometryDecodeError::UnsupportedCodec(codec));
        }
        if payload.is_empty() {
            return Err(GeometryDecodeError::InvalidPayload("empty payload".to_owned()));
        }
        Ok(payload.to_vec())
    }
}

struct Panicking;

impl GeometryDecoder for Panicking {
    type Output = ();

    fn supports(&self, _codec: GeometryCodec) -> bool {
        false
    }

    fn decode(&self, _codec: GeometryCodec, _payload: &[u8]) -> Result<(), GeometryDecodeError> {
        panic!("an unsupported codec must not reach the decoder");
    }
}

#[test]
fn codec_names_are_stable() {
    assert_eq!(GeometryCodec::RawGltf.as_str(), "raw-gltf");
    assert_eq!(GeometryCodec::Meshopt.as_str(), "meshopt");
    assert_eq!(GeometryCodec::Draco.as_str(), "draco");
}

#[test]
fn unsupported_codec_fails_before_decode() {
    let result = decode_with(&RawOnly, GeometryCodec::Draco, b"payload");
    assert_eq!(
        result,
        Err(GeometryDecodeError::UnsupportedCodec(GeometryCodec::Draco))
    );
}

#[test]
fn supported_codec_delegates_to_decoder() {
    assert_eq!(
        decode_with(&RawOnly, GeometryCodec::RawGltf, b"glTF"),
        Ok(b"glTF".to_vec())
    );
}

#[test]
fn decoder_errors_are_preserved() {
    assert_eq!(
        decode_with(&RawOnly, GeometryCodec::RawGltf, b""),
        Err(GeometryDecodeError::InvalidPayload("empty payload".to_owned()))
    );
}

#[test]
fn the_payload_never_reaches_a_decoder_without_support() {
    assert_eq!(
        decode_with(&Panicking, GeometryCodec::Meshopt, b"x"),
        Err(GeometryDecodeError::UnsupportedCodec(GeometryCodec::Meshopt))
    );
}

#[test]
fn decode_error_messages_name_the_codec_or_detail() {
    assert_eq!(
        GeometryDecodeError::UnsupportedCodec(GeometryCodec::Draco).message(),
        "geometry codec is not supported: draco"
    );
    assert_eq!(
        GeometryDecodeError::InvalidPayload("bad".to_owned()).message(),
        "invalid geometry payload: bad"
    );
}
