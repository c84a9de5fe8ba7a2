//! Zlib compression of array payloads, done by `async-compression`.
use vstd::prelude::*;
use async_compression::futures::bufread::{ZlibDecoder, ZlibEncoder};
use futures_lite::future::block_on;
use futures_lite::io::AsyncReadExt;

verus! {

/// The bytes that a zlib stream (with its header) decompresses to, or `None`
/// where the stream is broken.
pub uninterp spec fn inflate_of(b: Seq<u8>) -> Option<Seq<u8>>;

/// The zlib stream, at the default level, that compresses `b`.
pub uninterp spec fn deflate_of(b: Seq<u8>) -> Seq<u8>;

/// Relies on `async_compression::futures::bufread::ZlibDecoder` over the
/// payload, read to the end with `futures_lite`'s `read_to_end` and
/// `block_on`: the decompressed bytes, or an error on a broken stream.
#[verifier::external_body]
pub(crate) fn zlib_decompress(payload: &[u8]) -> (r: Option<Vec<u8>>)
    ensures
        match inflate_of(payload@) {
            Some(v) => r is Some && r->0@ == v,
            None => r is None,
        },
{
    let mut decoder = ZlibDecoder::new(payload);
    let mut out = Vec::new();
    match block_on(decoder.read_to_end(&mut out)) {
        Ok(_) => Some(out),
        Err(_) => None,
    }
}

/// Relies on `async_compression::futures::bufread::ZlibEncoder` at the default
/// level over the bytes, read to the end with `futures_lite`'s `read_to_end`
/// and `block_on`: the zlib stream of the bytes.
#[verifier::external_body]
pub(crate) fn zlib_compress(data: &[u8]) -> (r: Option<Vec<u8>>)
    ensures
        r matches Some(v) ==> v@ == deflate_of(data@),
{
    let mut encoder = ZlibEncoder::new(data);
    let mut out = Vec::new();
    match block_on(encoder.read_to_end(&mut out)) {
        Ok(_) => Some(out),
        Err(_) => None,
    }
}

} // verus!
