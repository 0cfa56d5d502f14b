//! Compression of packet bodies, done by the `flate2` crate.
//!
//! The two functions here hand bytes to `flate2` and take bytes back. What the
//! compressor writes is not described: it is given a name, and the framer's
//! contracts speak of that name.

use flate2::bufread::{ZlibDecoder, ZlibEncoder};
use flate2::Compression;
use std::io::Read;
use vstd::prelude::*;

verus! {

/// The zlib stream that the compressor makes of `data` at `level`, or `None`
/// where it reports an error.
pub uninterp spec fn zlib_deflated(data: Seq<u8>, level: u32) -> Option<Seq<u8>>;

/// What the decompressor gives for the zlib stream `data` when it may give at
/// most `limit` bytes, or `None` where it reports an error.
pub uninterp spec fn zlib_inflated(data: Seq<u8>, limit: u64) -> Option<Seq<u8>>;

/// Compresses `data` into `out`, which is emptied first, with
/// `flate2::bufread::ZlibEncoder` read to its end. Returns whether the
/// compressor finished without an error.
///
/// Claimed: what is written depends on `data` and `level` alone.
#[verifier::external_body]
pub(crate) fn deflate(data: &[u8], level: u32, out: &mut Vec<u8>) -> (ok: bool)
    requires
        level <= 9,
    ensures
        ok ==> zlib_deflated(data@, level) == Some(final(out)@),
        !ok ==> zlib_deflated(data@, level) is None,
{
    out.clear();
    ZlibEncoder::new(data, Compression::new(level)).read_to_end(out).is_ok()
}

/// Decompresses the zlib stream `data` into `out`, which is emptied first, with
/// `flate2::bufread::ZlibDecoder` behind `Read::take(limit)`, read to its end.
/// Returns whether the decompressor finished without an error.
///
/// Claimed: what is written depends on `data` and `limit` alone, and it is at
/// most `limit` bytes, as `take` promises. Claimed too, as the crate says of
/// its decoder and holds its own code to: a stream that the compressor made of
/// no more than `limit` bytes is decompressed without an error, and what comes
/// out is what the compressor was given.
#[verifier::external_body]
pub(crate) fn inflate(data: &[u8], limit: u64, out: &mut Vec<u8>) -> (ok: bool)
    ensures
        ok ==> zlib_inflated(data@, limit) == Some(final(out)@),
        !ok ==> zlib_inflated(data@, limit) is None,
        ok ==> final(out)@.len() <= limit,
        forall|plain: Seq<u8>, level: u32|
            level <= 9 && plain.len() <= limit && #[trigger] zlib_deflated(plain, level) == Some(
                data@,
            ) ==> ok && final(out)@ == plain,
{
    out.clear();
    ZlibDecoder::new(data).take(limit).read_to_end(out).is_ok()
}

} // verus!
