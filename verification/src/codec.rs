//! The blob compression codec: brotli behind a trusted boundary.
//!
//! Blobs are always compressed on write, at the codec's fastest quality,
//! and decoded on read when the consumer does not accept the compressed
//! encoding. The two directions are named by `compressed_of` and
//! `decompressed_of`; the round-trip law ties them together.

use vstd::prelude::*;
use crate::errors::CodecError;

verus! {

/// What the encoder emits for a payload: a deterministic function of the
/// payload bytes (the quality level is fixed).
pub uninterp spec fn compressed_of(b: Seq<u8>) -> Seq<u8>;

/// What the decoder yields for a stream: the payload, or `None` when the
/// bytes are not a stream the decoder accepts.
pub uninterp spec fn decompressed_of(b: Seq<u8>) -> Option<Seq<u8>>;

/// Relies on brotli::BrotliCompress at fixed fastest quality: the output
/// depends on the input bytes alone, and feeding it to
/// brotli::BrotliDecompress yields the input again (the format is
/// lossless). With in-memory input and output the call cannot fail: the
/// slice reader and vector writer are infallible, and the encoder
/// accepts every byte sequence (invalid parameters are clamped by
/// SanitizeParams, never rejected).
#[verifier::external_body]
pub(crate) fn brotli_compress(data: &Vec<u8>) -> (r: Result<Vec<u8>, CodecError>)
    ensures
        r is Ok,
        match r {
            Ok(c) => c@ == compressed_of(data@) && decompressed_of(c@) == Some(data@),
            Err(_) => true,
        },
{
    let params = brotli::enc::BrotliEncoderParams { quality: 0, ..Default::default() };
    let mut input = data.as_slice();
    let mut out: Vec<u8> = Vec::new();
    match brotli::BrotliCompress(&mut input, &mut out, &params) {
        Ok(_) => Ok(out),
        Err(e) => Err(CodecError::Stream(format!("{}", e))),
    }
}

/// Decodes a compressed blob back into payload bytes. Relies on
/// brotli::BrotliDecompress: the result depends on the input bytes alone,
/// and the call fails exactly on bytes that are not a valid stream.
#[verifier::external_body]
pub fn decode(compressed: &Vec<u8>) -> (r: Result<Vec<u8>, CodecError>)
    ensures
        match r {
            Ok(p) => decompressed_of(compressed@) == Some(p@),
            Err(_) => decompressed_of(compressed@) is None,
        },
{
    let mut input = compressed.as_slice();
    let mut out: Vec<u8> = Vec::new();
    match brotli::BrotliDecompress(&mut input, &mut out) {
        Ok(()) => Ok(out),
        Err(e) => Err(CodecError::Stream(format!("{}", e))),
    }
}

/// Codec round trip: for every byte sequence, decoding what the encoder
/// wrote yields the payload exactly — including the empty payload and
/// arbitrary binary content.
pub fn codec_round_trip(data: &Vec<u8>) -> (r: Vec<u8>)
    ensures
        r@ == data@,
{
    let compressed = match brotli_compress(data) {
        Ok(c) => c,
        Err(_) => {
            proof {
                assert(false);
            }
            unreached()
        },
    };
    match decode(&compressed) {
        Ok(out) => out,
        Err(_) => {
            proof {
                assert(false);
            }
            unreached()
        },
    }
}

} // verus!
