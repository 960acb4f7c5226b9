//! The checksum and compression services that the container relies on.
use vstd::prelude::*;
use vstd::utf8::{decode_utf8, valid_utf8};

verus! {

/// The CRC-32 of a byte sequence, as PNG and zlib define it (reflected
/// polynomial 0xEDB88320, register preset to all ones, result complemented).
pub uninterp spec fn crc32_of(s: Seq<u8>) -> u32;

/// The zlib stream that the compressor writes for `s` at compression level `level`.
pub uninterp spec fn zlib_compressed(s: Seq<u8>, level: u8) -> Seq<u8>;

/// What a zlib stream decodes to, or `None` where `s` is not a valid stream.
pub uninterp spec fn zlib_decompressed(s: Seq<u8>) -> Option<Seq<u8>>;

/// Relies on `crc32fast::hash`: the standard CRC-32 of the bytes, which
/// depends on the bytes alone.
#[verifier::external_body]
pub(crate) fn crc32(b: &[u8]) -> (r: u32)
    ensures
        r == crc32_of(b@),
{
    crc32fast::hash(b)
}

/// Relies on `miniz_oxide::deflate::compress_to_vec_zlib`: a zlib stream for
/// the bytes, which depends on the bytes and the level alone.
#[verifier::external_body]
pub(crate) fn zlib_compress(b: &[u8], level: u8) -> (r: Vec<u8>)
    ensures
        r@ == zlib_compressed(b@, level),
{
    miniz_oxide::deflate::compress_to_vec_zlib(b, level)
}

/// Relies on `miniz_oxide::inflate::decompress_to_vec_zlib`: the decoded
/// bytes of a zlib stream, or an error where the stream is not valid; either
/// depends on the input alone.
#[verifier::external_body]
pub(crate) fn zlib_decompress(b: &[u8]) -> (r: Option<Vec<u8>>)
    ensures
        match r {
            Some(v) => zlib_decompressed(b@) == Some(v@),
            None => zlib_decompressed(b@) is None,
        },
{
    miniz_oxide::inflate::decompress_to_vec_zlib(b).ok()
}

/// Relies on `String::from_utf8`: the bytes as a string where they are valid
/// UTF-8, an error where they are not.
#[verifier::external_body]
pub(crate) fn utf8_string(b: Vec<u8>) -> (r: Option<String>)
    ensures
        match r {
            Some(s) => valid_utf8(b@) && s@ == decode_utf8(b@),
            None => !valid_utf8(b@),
        },
{
    String::from_utf8(b).ok()
}

/// Relies on `String::push`: appends one character.
#[verifier::external_body]
pub(crate) fn push_char(s: &mut String, c: char)
    ensures
        final(s)@ == old(s)@.push(c),
{
    s.push(c)
}

} // verus!
