//! ZLIB compression of chunk bodies, by the `libflate` crate.

use std::io::{Read, Write};
use vstd::prelude::*;

verus! {

/// The ZLIB stream that `libflate` writes for `data` with its default
/// options; `None` where it gives none.
pub uninterp spec fn zlib_deflated(data: Seq<u8>) -> Option<Seq<u8>>;

/// The bytes that `libflate` reads from the ZLIB stream at the front of
/// `data`; `None` where it fails.
pub uninterp spec fn zlib_inflated(data: Seq<u8>) -> Option<Seq<u8>>;

/// `libflate::zlib::Encoder` over a `Vec`: `new`, `write_all` of the whole
/// input, `finish` and `into_result`. Whether a stream comes, and which,
/// depends on the input alone, and the decoder of the same crate reads
/// the input back from it.
#[verifier::external_body]
pub(crate) fn deflate(data: &[u8]) -> (r: Option<Vec<u8>>)
    ensures
        match r {
            Some(z) => zlib_deflated(data@) == Some(z@) && zlib_inflated(z@) == Some(data@),
            None => zlib_deflated(data@) is None,
        },
{
    let mut encoder = libflate::zlib::Encoder::new(Vec::new()).ok()?;
    encoder.write_all(data).ok()?;
    encoder.finish().into_result().ok()
}

/// `libflate::zlib::Decoder` over a slice: `new`, which reads the header,
/// and `read_to_end`.
#[verifier::external_body]
pub(crate) fn inflate(data: &[u8]) -> (r: Option<Vec<u8>>)
    ensures
        match r {
            Some(v) => zlib_inflated(data@) == Some(v@),
            None => zlib_inflated(data@) is None,
        },
{
    let mut out = Vec::new();
    libflate::zlib::Decoder::new(data).ok()?.read_to_end(&mut out).ok()?;
    Some(out)
}

} // verus!
