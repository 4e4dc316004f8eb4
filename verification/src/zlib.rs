//! The zlib streams that carry packets at or above the compression threshold.
//! Compression itself is the work of `flate2`; what this library relies on is
//! stated here and believed, not proved.

use flate2::bufread::ZlibDecoder;
use flate2::write::ZlibEncoder;
use flate2::Compression;
use std::io::Read;
use std::io::Write;
use vstd::prelude::*;

verus! {

/// The zlib stream that `flate2` writes for `raw` at its default level, or
/// `None` where it reports a failure.
pub uninterp spec fn deflated(raw: Seq<u8>) -> Option<Seq<u8>>;

/// The bytes that `flate2` reads out of the zlib stream `data`, or `None`
/// where it reports that `data` is no such stream.
pub uninterp spec fn inflated(data: Seq<u8>) -> Option<Seq<u8>>;

/// Runs `raw` through `flate2::write::ZlibEncoder` (`new` at
/// `Compression::default()`, `write_all`, `finish`) into a fresh buffer.
///
/// Believed of it: the stream is a function of `raw` alone, and
/// `flate2::bufread::ZlibDecoder` reads `raw` back out of it.
#[verifier::external_body]
pub(crate) fn deflate(raw: &[u8]) -> (r: Option<Vec<u8>>)
    ensures
        match r {
            Some(out) => deflated(raw@) == Some(out@) && inflated(out@) == Some(raw@),
            None => deflated(raw@) is None,
        },
{
    let mut encoder = ZlibEncoder::new(Vec::new(), Compression::default());
    match encoder.write_all(raw) {
        Ok(()) => encoder.finish().ok(),
        Err(_) => None,
    }
}

/// Reads `data` to its end through `flate2::bufread::ZlibDecoder`.
///
/// Believed of it: what comes out, or that the stream is refused, is a
/// function of `data` alone.
#[verifier::external_body]
pub(crate) fn inflate(data: &[u8]) -> (r: Option<Vec<u8>>)
    ensures
        match r {
            Some(out) => inflated(data@) == Some(out@),
            None => inflated(data@) is None,
        },
{
    let mut decoder = ZlibDecoder::new(data);
    let mut out: Vec<u8> = Vec::new();
    match decoder.read_to_end(&mut out) {
        Ok(_) => Some(out),
        Err(_) => None,
    }
}

} // verus!
