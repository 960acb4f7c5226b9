//! The ways in which parsing, assembly and unfiltering can fail.
use vstd::prelude::*;

verus! {

/// Why an operation on a PNG stream failed.
#[derive(Clone, Copy, Debug, PartialEq, Eq, Structural)]
pub enum PngError {
    /// The first eight bytes are not the PNG signature `89 50 4E 47 0D 0A 1A 0A`.
    MissingSignature,
    /// The chunk starting at this byte offset does not fit in the buffer: its
    /// header is cut short, or its declared length runs past the end.
    TruncatedInput(usize),
    /// The chunk at this index has a length field that disagrees with its payload.
    LengthMismatch(usize),
    /// The IHDR payload is shorter than 13 bytes, or there is no IHDR chunk.
    MalformedIhdr,
    /// Unfiltering was asked for a color type other than 2 (RGB) or 3 (indexed).
    UnsupportedColorType(u8),
    /// Zero width or height, an empty or oversized payload, or sizes that overflow.
    InvalidGeometry,
    /// The scanline with this row index runs past the end of the decompressed data.
    TruncatedRow(usize),
    /// The chunk at this index carries a CRC that differs from the one computed.
    ChecksumMismatch(usize),
}

} // verus!
