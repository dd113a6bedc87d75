//! Per-line gzip compression, delegated to the `flate2` codec.

use std::io::Write;
use vstd::prelude::*;

verus! {

/// The gzip encoding of a byte sequence, at the default compression level.
///
/// The encoding is a function of the input bytes alone: the encoder writes a
/// fixed header (its timestamp field is zero) followed by the deflate stream.
pub uninterp spec fn gzip_of(bytes: Seq<u8>) -> Seq<u8>;

/// Relies on `flate2::write::GzEncoder`: compresses the bytes at the default
/// level with an all-default header, so the output depends on the input alone.
/// Writing to a `Vec` sink cannot fail.
#[verifier::external_body]
pub(crate) fn gzip_bytes(data: &Vec<u8>) -> (r: Vec<u8>)
    ensures
        r@ == gzip_of(data@),
{
    let mut enc =
        flate2::write::GzEncoder::new(Vec::new(), flate2::Compression::default());
    enc.write_all(data.as_slice()).expect("writing to a Vec cannot fail");
    enc.finish().expect("writing to a Vec cannot fail")
}

} // verus!
