//! Per-container decompression.
//!
//! A compressed record payload begins with a 9-byte frame header: two
//! algorithm-identifying magic bytes followed by seven bytes of per-algorithm
//! sub-header; the compressed stream follows.  The supported schemes are
//! zlib (`ZL`) and xz (`XZ`); any other magic is an unsupported scheme.
use vstd::prelude::*;

use crate::errors::RootError;

verus! {

/// The size in bytes of the algorithm-identifying frame header.
pub const FRAME_HEADER_SIZE: usize = 9;

/// What inflating a zlib stream yields: `Some` exactly when the stream is a
/// well-formed zlib stream, and then the inflated bytes.
pub uninterp spec fn zlib_inflated(s: Seq<u8>) -> Option<Seq<u8>>;

/// What decoding an xz stream yields: `Some` exactly when the stream is a
/// well-formed xz stream, and then the decoded bytes.
pub uninterp spec fn xz_inflated(s: Seq<u8>) -> Option<Seq<u8>>;

/// Relies on `flate2::read::ZlibDecoder`: inflates a zlib stream read from
/// the input slice; the outcome depends on the input bytes alone.
#[verifier::external_body]
fn zlib_decompress(src: &[u8]) -> (r: Option<Vec<u8>>)
    ensures
        r is Some <==> zlib_inflated(src@) is Some,
        r matches Some(v) ==> zlib_inflated(src@) == Some(v@),
{
    let mut out = Vec::new();
    let mut dec = flate2::read::ZlibDecoder::new(src);
    match std::io::Read::read_to_end(&mut dec, &mut out) {
        Ok(_) => Some(out),
        Err(_) => None,
    }
}

/// Relies on `lzma_rs::xz_decompress`: decodes an xz stream read from the
/// input slice; the outcome depends on the input bytes alone.
#[verifier::external_body]
fn xz_stream_decompress(src: &[u8]) -> (r: Option<Vec<u8>>)
    ensures
        r is Some <==> xz_inflated(src@) is Some,
        r matches Some(v) ==> xz_inflated(src@) == Some(v@),
{
    let mut out = Vec::new();
    let mut input = src;
    match lzma_rs::xz_decompress(&mut input, &mut out) {
        Ok(()) => Some(out),
        Err(_) => None,
    }
}

/// The decompression of a framed payload: `None` when the frame is shorter
/// than its header, carries an unknown scheme, or its stream is undecodable.
pub open spec fn spec_decompress(s: Seq<u8>) -> Option<Seq<u8>> {
    if s.len() < FRAME_HEADER_SIZE {
        None
    } else if s[0] == 0x5a && s[1] == 0x4c {  // "ZL"
        zlib_inflated(s.skip(FRAME_HEADER_SIZE as int))
    } else if s[0] == 0x58 && s[1] == 0x5a {  // "XZ"
        xz_inflated(s.skip(FRAME_HEADER_SIZE as int))
    } else {
        None
    }
}

/// Decodes a framed compressed payload, dispatching on the frame's magic
/// bytes.  Fails with `DecompressError` exactly when `spec_decompress`
/// yields nothing.
pub fn decompress(src: &[u8]) -> (r: Result<Vec<u8>, RootError>)
    ensures
        match r {
            Ok(v) => spec_decompress(src@) == Some(v@),
            Err(e) => spec_decompress(src@) is None && e == RootError::DecompressError,
        },
{
    if src.len() < FRAME_HEADER_SIZE {
        return Err(RootError::DecompressError);
    }
    let stream = &src[FRAME_HEADER_SIZE..src.len()];
    assert(stream@ == src@.skip(FRAME_HEADER_SIZE as int));
    let decoded: Option<Vec<u8>> = if src[0] == 0x5a && src[1] == 0x4c {
        zlib_decompress(stream)
    } else if src[0] == 0x58 && src[1] == 0x5a {
        xz_stream_decompress(stream)
    } else {
        None
    };
    match decoded {
        Some(v) => Ok(v),
        None => Err(RootError::DecompressError),
    }
}

} // verus!
