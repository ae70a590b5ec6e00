//! The zlib compression step of the blob codec, carried out by the
//! `flate2` crate behind two trusted wrappers.

use vstd::prelude::*;
use std::io::Read;
use std::io::Write;

verus! {

/// What inflating a byte sequence yields: the decompressed bytes, or
/// nothing when the sequence is not a well-formed zlib stream. Inflation
/// is a function of the bytes alone, so the result only carries a name;
/// the trusted wrappers below say how the `flate2` calls relate to it.
pub uninterp spec fn inflate_of(z: Seq<u8>) -> Option<Seq<u8>>;

/// What deflating a byte sequence yields at this library's fixed
/// compression level: a function of the input bytes alone. The trusted
/// wrapper below ties the name to the `flate2` call.
pub uninterp spec fn deflate_of(data: Seq<u8>) -> Seq<u8>;

/// Relies on `flate2::write::ZlibEncoder` at level 9: compression is a
/// function of the input bytes, and its output inflates back to the
/// input. The sink is a `Vec`, which cannot fail, so neither call can.
#[verifier::external_body]
pub(crate) fn deflate(data: &[u8]) -> (r: Vec<u8>)
    ensures
        r@ == deflate_of(data@),
        inflate_of(r@) == Some(data@),
{
    let mut enc = flate2::write::ZlibEncoder::new(Vec::new(), flate2::Compression::new(9));
    enc.write_all(data).expect("writing to a Vec sink cannot fail");
    enc.finish().expect("finishing into a Vec sink cannot fail")
}

/// Relies on `flate2::read::ZlibDecoder`: inflating is a pure function of
/// the compressed bytes, succeeding exactly on well-formed zlib streams.
#[verifier::external_body]
pub(crate) fn inflate(data: &[u8]) -> (r: Option<Vec<u8>>)
    ensures
        inflate_of(data@) == (match r {
            Some(v) => Some(v@),
            None => None::<Seq<u8>>,
        }),
{
    let mut dec = flate2::read::ZlibDecoder::new(data);
    let mut out = Vec::new();
    match dec.read_to_end(&mut out) {
        Ok(_) => Some(out),
        Err(_) => None,
    }
}

} // verus!
