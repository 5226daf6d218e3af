//! Compressed text, as `flate2` writes and reads it in the zlib format.

use vstd::prelude::*;

verus! {

/// The bytes that a text is compressed to.
pub uninterp spec fn zlib_deflated(text: Seq<char>) -> Seq<u8>;

/// The text that bytes are the compressed form of, if they are that of a
/// text.
pub uninterp spec fn zlib_inflated(data: Seq<u8>) -> Option<Seq<char>>;

/// `flate2::write::ZlibEncoder` with `flate2::Compression::best()`, over a
/// vector of bytes: the bytes that it has written once the text has gone
/// through it and it has finished. Writing into a vector does not fail.
#[verifier::external_body]
pub(crate) fn deflate(text: &str) -> (data: Vec<u8>)
    ensures
        data@ == zlib_deflated(text@),
{
    let mut encoder = flate2::write::ZlibEncoder::new(Vec::new(), flate2::Compression::best());
    match std::io::Write::write_all(&mut encoder, text.as_bytes()) {
        Ok(()) => encoder.finish().unwrap_or_default(),
        Err(_) => Vec::new(),
    }
}

/// `flate2::read::ZlibDecoder` over the bytes, read to its end as text:
/// nothing where the bytes are not in the zlib format, or what they hold is
/// not text.
#[verifier::external_body]
pub(crate) fn inflate(data: &[u8]) -> (text: Option<String>)
    ensures
        match text {
            Some(found) => zlib_inflated(data@) == Some(found@),
            None => zlib_inflated(data@) is None,
        },
{
    let mut text = String::new();
    match std::io::Read::read_to_string(&mut flate2::read::ZlibDecoder::new(data), &mut text) {
        Ok(_) => Some(text),
        Err(_) => None,
    }
}

} // verus!
