//! Decompression of stored file data.

use flate2::read::{DeflateDecoder, ZlibDecoder};
use std::io::Read;
use vstd::prelude::*;

verus! {

/// The data of `b` read as a zlib-wrapped deflate stream, or `None` where the
/// stream cannot be read.
pub uninterp spec fn zlib_inflated(b: Seq<u8>) -> Option<Seq<u8>>;

/// The data of `b` read as a raw deflate stream, or `None` where the stream
/// cannot be read.
pub uninterp spec fn deflate_inflated(b: Seq<u8>) -> Option<Seq<u8>>;

/// Relies on flate2's `read::ZlibDecoder` read to the end: the decoded data,
/// or an error where the zlib stream is malformed.
#[verifier::external_body]
pub(crate) fn inflate_zlib(b: &[u8]) -> (r: Option<Vec<u8>>)
    ensures
        r is Some <==> zlib_inflated(b@) is Some,
        r matches Some(v) ==> zlib_inflated(b@) == Some(v@),
{
    let mut out = Vec::new();
    ZlibDecoder::new(b).read_to_end(&mut out).ok().map(|_| out)
}

/// Relies on flate2's `read::DeflateDecoder` read to the end: the decoded
/// data, or an error where the deflate stream is malformed.
#[verifier::external_body]
pub(crate) fn inflate_deflate(b: &[u8]) -> (r: Option<Vec<u8>>)
    ensures
        r is Some <==> deflate_inflated(b@) is Some,
        r matches Some(v) ==> deflate_inflated(b@) == Some(v@),
{
    let mut out = Vec::new();
    DeflateDecoder::new(b).read_to_end(&mut out).ok().map(|_| out)
}

} // verus!
