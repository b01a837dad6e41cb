//! Gzip compression of object buffers, done by `flate2`.

use std::io::{Read, Write};

use vstd::prelude::*;

verus! {

/// The gzip stream that `flate2` writes for a buffer at the default level.
pub uninterp spec fn gz_encoded(b: Seq<u8>) -> Seq<u8>;

/// The bytes that `flate2` reads back from a gzip stream, or `None` where the
/// stream cannot be read.
pub uninterp spec fn gz_decoded(b: Seq<u8>) -> Option<Seq<u8>>;

/// The view of an optional byte vector.
pub open spec fn opt_bytes_view(o: Option<Vec<u8>>) -> Option<Seq<u8>> {
    match o {
        Some(v) => Some(v@),
        None => None,
    }
}

/// Compresses a buffer with `flate2::write::GzEncoder` at the default level.
///
/// The contract claims that the call succeeds (the encoder writes into a
/// `Vec`, which cannot fail), that the stream is the one named `gz_encoded`
/// (flate2 writes no time stamp and a fixed system byte, so the stream is a
/// function of the buffer) and that `flate2` reads the buffer back from it.
#[verifier::external_body]
pub(crate) fn gz_zip(buf: &[u8]) -> (r: Option<Vec<u8>>)
    ensures
        r is Some,
        r matches Some(z) ==> z@ == gz_encoded(buf@) && gz_decoded(z@) == Some(buf@),
{
    let mut encoder = flate2::write::GzEncoder::new(Vec::new(), flate2::Compression::default());
    match encoder.write_all(buf) {
        Ok(()) => {},
        Err(_) => return None,
    }
    match encoder.finish() {
        Ok(z) => Some(z),
        Err(_) => None,
    }
}

/// Decompresses a gzip stream with `flate2::read::GzDecoder`.
///
/// The contract claims that the result is the one named `gz_decoded`.
#[verifier::external_body]
pub(crate) fn gz_unzip(buf: &[u8]) -> (r: Option<Vec<u8>>)
    ensures
        opt_bytes_view(r) == gz_decoded(buf@),
{
    let mut decoder = flate2::read::GzDecoder::new(buf);
    let mut out = Vec::new();
    match decoder.read_to_end(&mut out) {
        Ok(_) => Some(out),
        Err(_) => None,
    }
}

} // verus!
