//! Building a complete minimal file around compressed pixel data.
use vstd::prelude::*;

use crate::buffer::DeflatedData;
use crate::bytes::copy_range;
use crate::chunk::{
    build_idat_chunk, build_iend_chunk, build_ihdr_chunk, fresh_chunk, idat_type, iend_type,
    ihdr_payload, ihdr_type, Chunk,
};
use crate::constants::{IHDR_DATA_FOR_UNCOMPRESSED_FILE, LENGTH_OF_SIGNATURE, PNG_SIGNATURE};
use crate::container::{png_signature, Png, PngView};

verus! {

/// Assembly takes these inputs: a non-empty image and a non-empty payload
/// whose length fits a chunk's length field.
pub open spec fn assembly_accepts(width: u32, height: u32, compressed: Seq<u8>) -> bool {
    width > 0 && height > 0 && compressed.len() > 0 && compressed.len() <= u32::MAX
}

/// The file assembled around `compressed`: the signature, an IHDR chunk for an
/// 8-bit RGB image that is not interlaced, one IDAT chunk and an IEND chunk.
pub open spec fn assembled(width: u32, height: u32, compressed: Seq<u8>) -> PngView {
    PngView {
        signature: png_signature(),
        chunks: seq![
            fresh_chunk(ihdr_type(), ihdr_payload(width, height, 8, 2, 0, 0, 0)),
            fresh_chunk(idat_type(), compressed),
            fresh_chunk(iend_type(), Seq::empty()),
        ],
    }
}

/// Assembles a file from the image geometry and the compressed image stream;
/// `None` for a zero width or height, an empty stream, or one too long for a
/// chunk.
pub fn create_png_from_deflated_data(width: u32, height: u32, deflated_data: &DeflatedData) -> (r:
    Option<Png>)
    ensures
        r is Some <==> assembly_accepts(width, height, deflated_data@),
        r is Some ==> r->Some_0@ == assembled(width, height, deflated_data@),
{
    if width == 0 || height == 0 || deflated_data.len() == 0 || deflated_data.len() > 0xFFFF_FFFFusize {
        return None;
    }
    let m = IHDR_DATA_FOR_UNCOMPRESSED_FILE;
    let ihdr = build_ihdr_chunk(width, height, m[0], m[1], m[2], m[3], m[4]);
    let payload = copy_range(deflated_data.as_slice(), 0, deflated_data.len());
    assert(payload@ =~= deflated_data@);
    let idat = match build_idat_chunk(payload) {
        Ok(c) => c,
        Err(_) => {
            return None;
        },
    };
    let iend = build_iend_chunk();
    let mut chunks: Vec<Chunk> = Vec::with_capacity(3);
    chunks.push(ihdr);
    chunks.push(idat);
    chunks.push(iend);
    let signature = copy_range(PNG_SIGNATURE.as_slice(), 0, LENGTH_OF_SIGNATURE);
    assert(signature@ =~= png_signature());
    let p = Png { signature, chunks };
    assert(p@.chunks =~= assembled(width, height, deflated_data@).chunks);
    Some(p)
}

/// As `create_png_from_deflated_data`, consuming the stream.
pub fn create_png_from_boxed_defalted_data(
    width: u32,
    height: u32,
    deflated_data: Box<DeflatedData>,
) -> (r: Option<Png>)
    ensures
        r is Some <==> assembly_accepts(width, height, deflated_data@),
        r is Some ==> r->Some_0@ == assembled(width, height, deflated_data@),
{
    create_png_from_deflated_data(width, height, &*deflated_data)
}

} // verus!
