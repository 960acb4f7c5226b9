//! Fixed sizes and byte strings of the PNG container format.
use vstd::prelude::*;

verus! {

pub const LENGTH_OF_SIGNATURE: usize = 8;

pub const LENGTH_OF_LENGTH_FIELD: usize = 4;

pub const LENGTH_OF_TYPE_FIELD: usize = 4;

pub const LENGTH_OF_CRC_FIELD: usize = 4;

/// Bytes that frame every chunk besides its payload.
pub const LENGTH_OF_THREE_FIELDS: usize = LENGTH_OF_LENGTH_FIELD + LENGTH_OF_TYPE_FIELD
    + LENGTH_OF_CRC_FIELD;

/// Length of the IHDR payload.
pub const LENGTH_OF_IHDR_DATA: usize = 13;

pub const PNG_SIGNATURE: [u8; LENGTH_OF_SIGNATURE] = [0x89, 0x50, 0x4E, 0x47, 0x0D, 0x0A, 0x1A, 0x0A];

pub const PNG_IHDR_TYPE_SIGNATURE: [u8; LENGTH_OF_TYPE_FIELD] = [0x49, 0x48, 0x44, 0x52];

pub const PNG_IDAT_TYPE_SIGNATURE: [u8; LENGTH_OF_TYPE_FIELD] = [0x49, 0x44, 0x41, 0x54];

pub const PNG_IEND_TYPE_SIGNATURE: [u8; LENGTH_OF_TYPE_FIELD] = [0x49, 0x45, 0x4E, 0x44];

/// Bit depth 8, color type 2 (RGB), compression 0, filter 0, interlace 0.
pub const IHDR_DATA_FOR_UNCOMPRESSED_FILE: [u8; 5] = [0x08, 0x02, 0x00, 0x00, 0x00];

/// Compression level handed to the zlib compressor.
pub const DEFLATE_LEVEL: u8 = 6;

} // verus!
