//! A single length-prefixed, type-tagged, checksummed chunk.
use vstd::prelude::*;

use crate::buffer::InflatedData;
use crate::bytes::{append_range, be32, be_bytes, copy_range, push_be_u32, read_be_u32};
use crate::codec::{crc32, crc32_of, push_char, utf8_string, zlib_decompress, zlib_decompressed};
use vstd::utf8::{decode_utf8, valid_utf8};
use crate::constants::{
    LENGTH_OF_IHDR_DATA, LENGTH_OF_THREE_FIELDS,
    PNG_IDAT_TYPE_SIGNATURE, PNG_IEND_TYPE_SIGNATURE, PNG_IHDR_TYPE_SIGNATURE,
};
use crate::error::PngError;

verus! {

/// The four fields of a chunk as byte sequences.
pub struct ChunkView {
    pub length: Seq<u8>,
    pub chunk_type: Seq<u8>,
    pub data: Seq<u8>,
    pub crc: Seq<u8>,
}

/// Bytes read as characters, one character per byte.
pub open spec fn chars_of(s: Seq<u8>) -> Seq<char> {
    s.map_values(|b: u8| b as char)
}

/// Every byte is below 128.
pub open spec fn is_ascii_bytes(s: Seq<u8>) -> bool {
    forall|i: int| 0 <= i < s.len() ==> #[trigger] s[i] < 128
}

pub open spec fn ihdr_type() -> Seq<u8> {
    seq![0x49u8, 0x48u8, 0x44u8, 0x52u8]
}

pub open spec fn idat_type() -> Seq<u8> {
    seq![0x49u8, 0x44u8, 0x41u8, 0x54u8]
}

pub open spec fn iend_type() -> Seq<u8> {
    seq![0x49u8, 0x45u8, 0x4Eu8, 0x44u8]
}

impl ChunkView {
    /// The bytes the CRC is computed over: the type followed by the payload.
    pub open spec fn crc_input(self) -> Seq<u8> {
        self.chunk_type + self.data
    }

    /// The length field is four bytes and states the payload's length.
    pub open spec fn length_consistent(self) -> bool {
        self.length.len() == 4 && be32(self.length) as int == self.data.len()
    }

    /// The CRC field holds the CRC-32 of the type and payload.
    pub open spec fn crc_consistent(self) -> bool {
        self.crc == be_bytes(crc32_of(self.crc_input()))
    }

    /// The type is ASCII and, read as characters, is `t`.
    pub open spec fn has_type(self, t: Seq<char>) -> bool {
        is_ascii_bytes(self.chunk_type) && chars_of(self.chunk_type) == t
    }
}

/// A chunk with the given type, payload and CRC value, its length field
/// stating the payload's length.
pub open spec fn framed_chunk(chunk_type: Seq<u8>, data: Seq<u8>, crc: u32) -> ChunkView {
    ChunkView { length: be_bytes(data.len() as u32), chunk_type, data, crc: be_bytes(crc) }
}

/// A chunk with the given type and payload and the CRC computed over them.
pub open spec fn fresh_chunk(chunk_type: Seq<u8>, data: Seq<u8>) -> ChunkView {
    framed_chunk(chunk_type, data, crc32_of(chunk_type + data))
}

/// The 13-byte IHDR payload.
pub open spec fn ihdr_payload(
    width: u32,
    height: u32,
    bit_depth: u8,
    color_type: u8,
    compression: u8,
    filter: u8,
    interlace: u8,
) -> Seq<u8> {
    be_bytes(width) + be_bytes(height) + seq![bit_depth, color_type, compression, filter, interlace]
}

/// The chunk that starts at byte `off` of `b`, and the offset just past it;
/// or `TruncatedInput(off)` where its header or its declared payload and CRC
/// do not fit in what is left of `b`.
pub open spec fn parse_chunk_at(b: Seq<u8>, off: int) -> Result<(ChunkView, int), PngError> {
    if off + 12 > b.len() {
        Err(PngError::TruncatedInput(off as usize))
    } else {
        let n = be32(b.subrange(off, off + 4)) as int;
        if off + 12 + n > b.len() {
            Err(PngError::TruncatedInput(off as usize))
        } else {
            Ok(
                (
                    ChunkView {
                        length: b.subrange(off, off + 4),
                        chunk_type: b.subrange(off + 4, off + 8),
                        data: b.subrange(off + 8, off + 8 + n),
                        crc: b.subrange(off + 8 + n, off + 12 + n),
                    },
                    off + 12 + n,
                ),
            )
        }
    }
}

/// A chunk of a PNG stream: a 4-byte big-endian length, a 4-byte ASCII type,
/// the payload, and a 4-byte big-endian CRC-32 over type and payload.
#[derive(Clone, Debug, PartialEq, Eq)]
pub struct Chunk {
    pub length: Vec<u8>,
    pub chunk_type: Vec<u8>,
    pub data: Vec<u8>,
    pub crc: Vec<u8>,
}

impl View for Chunk {
    type V = ChunkView;

    open spec fn view(&self) -> ChunkView {
        ChunkView {
            length: self.length@,
            chunk_type: self.chunk_type@,
            data: self.data@,
            crc: self.crc@,
        }
    }
}

/// Reads the chunk that starts at byte `off` of `b`, and returns it with the
/// offset just past it.
pub(crate) fn parse_chunk(b: &[u8], off: usize) -> (r: Result<(Chunk, usize), PngError>)
    requires
        off <= b@.len(),
    ensures
        match parse_chunk_at(b@, off as int) {
            Ok((c, end)) => r is Ok && r->Ok_0.0@ == c && r->Ok_0.1 == end,
            Err(e) => r == Err::<(Chunk, usize), PngError>(e),
        },
{
    let len = b.len();
    if len - off < LENGTH_OF_THREE_FIELDS {
        return Err(PngError::TruncatedInput(off));
    }
    let n = read_be_u32(b, off) as usize;
    if n > len - off - LENGTH_OF_THREE_FIELDS {
        return Err(PngError::TruncatedInput(off));
    }
    let length = copy_range(b, off, off + 4);
    let chunk_type = copy_range(b, off + 4, off + 8);
    let data = copy_range(b, off + 8, off + 8 + n);
    let crc = copy_range(b, off + 8 + n, off + 12 + n);
    Ok((Chunk { length, chunk_type, data, crc }, off + 12 + n))
}

impl Chunk {
    /// Reads the chunk at the start of `data`; bytes after it are ignored.
    pub fn new(data: Vec<u8>) -> (r: Result<Self, PngError>)
        ensures
            match parse_chunk_at(data@, 0) {
                Ok((c, _)) => r is Ok && r->Ok_0@ == c,
                Err(e) => r == Err::<Chunk, PngError>(e),
            },
    {
        match parse_chunk(data.as_slice(), 0) {
            Ok((c, _)) => Ok(c),
            Err(e) => Err(e),
        }
    }

    /// The chunk with the given type, payload and CRC value; the length field
    /// states the payload's length.
    pub fn from_parts(chunk_type: &[u8], data: Vec<u8>, crc: u32) -> (r: Self)
        requires
            data@.len() <= u32::MAX,
        ensures
            r@ == framed_chunk(chunk_type@, data@, crc),
    {
        let mut length: Vec<u8> = Vec::with_capacity(4);
        push_be_u32(&mut length, data.len() as u32);
        let mut crc_bytes: Vec<u8> = Vec::with_capacity(4);
        push_be_u32(&mut crc_bytes, crc);
        let ghost given = chunk_type@;
        let chunk_type = copy_range(chunk_type, 0, chunk_type.len());
        assert(chunk_type@ =~= given);
        assert(length@ =~= be_bytes(data@.len() as u32));
        assert(crc_bytes@ =~= be_bytes(crc));
        Chunk { length, chunk_type, data, crc: crc_bytes }
    }

    /// The chunk with the given type and payload and the CRC-32 computed over them.
    fn fresh(chunk_type: &[u8], data: Vec<u8>) -> (r: Self)
        requires
            data@.len() <= u32::MAX,
        ensures
            r@ == fresh_chunk(chunk_type@, data@),
    {
        let mut input: Vec<u8> = Vec::with_capacity(chunk_type.len());
        append_range(&mut input, chunk_type, 0, chunk_type.len());
        append_range(&mut input, data.as_slice(), 0, data.len());
        assert(input@ =~= chunk_type@ + data@);
        let crc = crc32(input.as_slice());
        Chunk::from_parts(chunk_type, data, crc)
    }

    /// The chunk with the given type and payload and the CRC-32 computed over
    /// them; `InvalidGeometry` where the payload's length does not fit in 32 bits.
    pub fn build(chunk_type: &[u8], data: Vec<u8>) -> (r: Result<Self, PngError>)
        ensures
            data@.len() > u32::MAX ==> r == Err::<Chunk, PngError>(PngError::InvalidGeometry),
            data@.len() <= u32::MAX ==> r is Ok && r->Ok_0@ == fresh_chunk(chunk_type@, data@),
    {
        if data.len() > 0xFFFF_FFFFusize {
            return Err(PngError::InvalidGeometry);
        }
        Ok(Chunk::fresh(chunk_type, data))
    }

    /// The CRC-32 of the type followed by the payload.
    pub fn compute_crc(&self) -> (r: u32)
        ensures
            r == crc32_of(self@.crc_input()),
    {
        let mut input: Vec<u8> = Vec::with_capacity(self.chunk_type.len());
        append_range(&mut input, self.chunk_type.as_slice(), 0, self.chunk_type.len());
        append_range(&mut input, self.data.as_slice(), 0, self.data.len());
        assert(input@ =~= self@.crc_input());
        crc32(input.as_slice())
    }

    /// Appends the chunk to `out` as it stands in a file: the payload's length,
    /// the type, the payload, and `crc`, integers in big-endian order.
    pub fn write_framed(&self, out: &mut Vec<u8>, crc: u32)
        requires
            self.data@.len() <= u32::MAX,
        ensures
            final(out)@ == old(out)@ + (be_bytes(self.data@.len() as u32) + self.chunk_type@
                + self.data@ + be_bytes(crc)),
    {
        push_be_u32(out, self.data.len() as u32);
        append_range(out, self.chunk_type.as_slice(), 0, self.chunk_type.len());
        append_range(out, self.data.as_slice(), 0, self.data.len());
        push_be_u32(out, crc);
        assert(final(out)@ =~= old(out)@ + (be_bytes(self.data@.len() as u32) + self.chunk_type@
            + self.data@ + be_bytes(crc)));
    }

    /// The payload length stated by the length field.
    pub fn get_length(&self) -> (r: u32)
        requires
            self.length@.len() == 4,
        ensures
            r == be32(self.length@),
    {
        read_be_u32(self.length.as_slice(), 0)
    }

    /// The type as a string: decoded where it is valid UTF-8 (for every
    /// standard chunk type, its ASCII letters); else one character per byte.
    pub fn get_type_name(&self) -> (r: String)
        ensures
            valid_utf8(self.chunk_type@) ==> r@ == decode_utf8(self.chunk_type@),
            !valid_utf8(self.chunk_type@) ==> r@ == chars_of(self.chunk_type@),
    {
        let bytes = copy_range(self.chunk_type.as_slice(), 0, self.chunk_type.len());
        assert(bytes@ =~= self.chunk_type@);
        match utf8_string(bytes) {
            Some(s) => {
                return s;
            },
            None => {},
        }
        let mut s = String::new();
        let mut i: usize = 0;
        while i < self.chunk_type.len()
            invariant
                i <= self.chunk_type@.len(),
                s@ == chars_of(self.chunk_type@.subrange(0, i as int)),
            decreases self.chunk_type@.len() - i,
        {
            push_char(&mut s, self.chunk_type[i] as char);
            i = i + 1;
            assert(s@ =~= chars_of(self.chunk_type@.subrange(0, i as int)));
        }
        assert(self.chunk_type@.subrange(0, i as int) =~= self.chunk_type@);
        s
    }

    /// The type is ASCII and, read as characters, equals `chunk_type`; a
    /// query with a character outside ASCII matches nothing.
    pub fn has_type(&self, chunk_type: &str) -> (r: bool)
        ensures
            r == self@.has_type(chunk_type@),
    {
        let n = chunk_type.unicode_len();
        if n != self.chunk_type.len() {
            return false;
        }
        let mut i: usize = 0;
        while i < n
            invariant
                n == chunk_type@.len() == self.chunk_type@.len(),
                i <= n,
                forall|j: int| 0 <= j < i ==> chunk_type@[j] == self.chunk_type@[j] as char,
                forall|j: int| 0 <= j < i ==> self.chunk_type@[j] < 128,
            decreases n - i,
        {
            if self.chunk_type[i] >= 128 {
                return false;
            }
            if chunk_type.get_char(i) != self.chunk_type[i] as char {
                assert(chars_of(self.chunk_type@)[i as int] != chunk_type@[i as int]);
                return false;
            }
            i = i + 1;
        }
        assert(chars_of(self.chunk_type@) =~= chunk_type@);
        true
    }

    /// The payload decompressed as a zlib stream, or `None` where it is not one.
    pub fn get_inflated_data(&self) -> (r: Option<InflatedData>)
        ensures
            match r {
                Some(v) => zlib_decompressed(self.data@) == Some(v@),
                None => zlib_decompressed(self.data@) is None,
            },
    {
        match zlib_decompress(self.data.as_slice()) {
            Some(v) => Some(InflatedData::new(v)),
            None => None,
        }
    }

    /// The value of the CRC field.
    pub fn get_crc(&self) -> (r: u32)
        requires
            self.crc@.len() == 4,
        ensures
            r == be32(self.crc@),
    {
        read_be_u32(self.crc.as_slice(), 0)
    }

    /// The CRC field holds `computed` in big-endian order.
    pub fn crc_matches(&self, computed: u32) -> (r: bool)
        ensures
            r == (self.crc@ == be_bytes(computed)),
    {
        if self.crc.len() != 4 {
            assert(be_bytes(computed).len() == 4);
            return false;
        }
        let stored = read_be_u32(self.crc.as_slice(), 0);
        proof {
            crate::bytes::lemma_be_bytes_of_be32(self.crc@);
            crate::bytes::lemma_be32_of_be_bytes(computed);
            assert(self.crc@.subrange(0, 4) =~= self.crc@);
        }
        stored == computed
    }

    /// Width, from bytes 0 to 3 of an IHDR payload.
    pub fn get_width(&self) -> (r: Result<u32, PngError>)
        ensures
            self.data@.len() >= 13 ==> r == Ok::<u32, PngError>(be32(self.data@.subrange(0, 4))),
            self.data@.len() < 13 ==> r == Err::<u32, PngError>(PngError::MalformedIhdr),
    {
        if self.data.len() < LENGTH_OF_IHDR_DATA {
            return Err(PngError::MalformedIhdr);
        }
        Ok(read_be_u32(self.data.as_slice(), 0))
    }

    /// Height, from bytes 4 to 7 of an IHDR payload.
    pub fn get_height(&self) -> (r: Result<u32, PngError>)
        ensures
            self.data@.len() >= 13 ==> r == Ok::<u32, PngError>(be32(self.data@.subrange(4, 8))),
            self.data@.len() < 13 ==> r == Err::<u32, PngError>(PngError::MalformedIhdr),
    {
        if self.data.len() < LENGTH_OF_IHDR_DATA {
            return Err(PngError::MalformedIhdr);
        }
        Ok(read_be_u32(self.data.as_slice(), 4))
    }

    /// Byte `i` of an IHDR payload, provided the payload has all 13 bytes.
    fn ihdr_byte(&self, i: usize) -> (r: Result<u8, PngError>)
        requires
            i < 13,
        ensures
            self.data@.len() >= 13 ==> r == Ok::<u8, PngError>(self.data@[i as int]),
            self.data@.len() < 13 ==> r == Err::<u8, PngError>(PngError::MalformedIhdr),
    {
        if self.data.len() < LENGTH_OF_IHDR_DATA {
            return Err(PngError::MalformedIhdr);
        }
        Ok(self.data[i])
    }

    /// Bit depth, byte 8 of an IHDR payload.
    pub fn get_bit_depth(&self) -> (r: Result<u8, PngError>)
        ensures
            self.data@.len() >= 13 ==> r == Ok::<u8, PngError>(self.data@[8]),
            self.data@.len() < 13 ==> r == Err::<u8, PngError>(PngError::MalformedIhdr),
    {
        self.ihdr_byte(8)
    }

    /// Color type, byte 9 of an IHDR payload.
    pub fn get_color_type(&self) -> (r: Result<u8, PngError>)
        ensures
            self.data@.len() >= 13 ==> r == Ok::<u8, PngError>(self.data@[9]),
            self.data@.len() < 13 ==> r == Err::<u8, PngError>(PngError::MalformedIhdr),
    {
        self.ihdr_byte(9)
    }

    /// Compression method, byte 10 of an IHDR payload.
    pub fn get_compression_method(&self) -> (r: Result<u8, PngError>)
        ensures
            self.data@.len() >= 13 ==> r == Ok::<u8, PngError>(self.data@[10]),
            self.data@.len() < 13 ==> r == Err::<u8, PngError>(PngError::MalformedIhdr),
    {
        self.ihdr_byte(10)
    }

    /// Filter method, byte 11 of an IHDR payload.
    pub fn get_filter_method(&self) -> (r: Result<u8, PngError>)
        ensures
            self.data@.len() >= 13 ==> r == Ok::<u8, PngError>(self.data@[11]),
            self.data@.len() < 13 ==> r == Err::<u8, PngError>(PngError::MalformedIhdr),
    {
        self.ihdr_byte(11)
    }

    /// Interlace method, byte 12 of an IHDR payload.
    pub fn get_interlace_method(&self) -> (r: Result<u8, PngError>)
        ensures
            self.data@.len() >= 13 ==> r == Ok::<u8, PngError>(self.data@[12]),
            self.data@.len() < 13 ==> r == Err::<u8, PngError>(PngError::MalformedIhdr),
    {
        self.ihdr_byte(12)
    }

    /// A copy of the payload.
    pub fn get_data(&self) -> (r: Vec<u8>)
        ensures
            r@ == self.data@,
    {
        let r = copy_range(self.data.as_slice(), 0, self.data.len());
        assert(r@ =~= self.data@);
        r
    }
}

/// The IHDR chunk for an image of the given geometry and encoding parameters.
pub fn build_ihdr_chunk(
    width: u32,
    height: u32,
    bit_depth: u8,
    color_type: u8,
    compression: u8,
    filter: u8,
    interlace: u8,
) -> (r: Chunk)
    ensures
        r@ == fresh_chunk(
            ihdr_type(),
            ihdr_payload(width, height, bit_depth, color_type, compression, filter, interlace),
        ),
{
    let mut payload: Vec<u8> = Vec::with_capacity(LENGTH_OF_IHDR_DATA);
    push_be_u32(&mut payload, width);
    push_be_u32(&mut payload, height);
    payload.push(bit_depth);
    payload.push(color_type);
    payload.push(compression);
    payload.push(filter);
    payload.push(interlace);
    assert(payload@ =~= ihdr_payload(
        width,
        height,
        bit_depth,
        color_type,
        compression,
        filter,
        interlace,
    ));
    assert(PNG_IHDR_TYPE_SIGNATURE@ =~= ihdr_type());
    Chunk::fresh(PNG_IHDR_TYPE_SIGNATURE.as_slice(), payload)
}

/// The IDAT chunk carrying `compressed`; `InvalidGeometry` where its length
/// does not fit in 32 bits.
pub fn build_idat_chunk(compressed: Vec<u8>) -> (r: Result<Chunk, PngError>)
    ensures
        compressed@.len() > u32::MAX ==> r == Err::<Chunk, PngError>(PngError::InvalidGeometry),
        compressed@.len() <= u32::MAX ==> r is Ok && r->Ok_0@ == fresh_chunk(
            idat_type(),
            compressed@,
        ),
{
    assert(PNG_IDAT_TYPE_SIGNATURE@ =~= idat_type());
    Chunk::build(PNG_IDAT_TYPE_SIGNATURE.as_slice(), compressed)
}

/// The IEND chunk: an empty payload.
pub fn build_iend_chunk() -> (r: Chunk)
    ensures
        r@ == fresh_chunk(iend_type(), Seq::empty()),
{
    assert(PNG_IEND_TYPE_SIGNATURE@ =~= iend_type());
    let empty: Vec<u8> = Vec::new();
    Chunk::fresh(PNG_IEND_TYPE_SIGNATURE.as_slice(), empty)
}

} // verus!
