//! A PNG file held in memory: its signature and its ordered chunks.
use vstd::prelude::*;

use crate::buffer::{DeflatedData, InflatedData};
use crate::bytes::{append_range, be32, be_bytes, copy_range};
use crate::chunk::{chars_of, idat_type, ihdr_type, parse_chunk, parse_chunk_at, Chunk, ChunkView};
use crate::pixels::{strip_filter_bytes, strip_result};
use crate::codec::{crc32_of, zlib_compress, zlib_compressed, zlib_decompress, zlib_decompressed};
use crate::constants::{DEFLATE_LEVEL, LENGTH_OF_SIGNATURE, PNG_SIGNATURE};
use crate::error::PngError;

verus! {

/// A file as a signature and a sequence of chunk models.
pub struct PngView {
    pub signature: Seq<u8>,
    pub chunks: Seq<ChunkView>,
}

/// The eight bytes every PNG file starts with.
pub open spec fn png_signature() -> Seq<u8> {
    seq![0x89u8, 0x50u8, 0x4Eu8, 0x47u8, 0x0Du8, 0x0Au8, 0x1Au8, 0x0Au8]
}

/// `r` with `p` put in front of its chunks, where `r` is a success.
pub open spec fn prepend(p: Seq<ChunkView>, r: Result<Seq<ChunkView>, PngError>) -> Result<
    Seq<ChunkView>,
    PngError,
> {
    match r {
        Ok(s) => Ok(p + s),
        Err(e) => Err(e),
    }
}

/// The chunks of `b` from byte `off` to its end, read one after the other;
/// or the error of the first chunk that does not fit.
pub open spec fn parse_chunks(b: Seq<u8>, off: int) -> Result<Seq<ChunkView>, PngError>
    decreases b.len() - off,
{
    if off >= b.len() {
        Ok(Seq::empty())
    } else {
        match parse_chunk_at(b, off) {
            Err(e) => Err(e),
            Ok((c, end)) => prepend(seq![c], parse_chunks(b, end)),
        }
    }
}

/// What parsing makes of a whole buffer: nothing where it is shorter than a
/// signature; `MissingSignature` where its first eight bytes are not the PNG
/// signature; else the signature and the chunks after it.
pub open spec fn parse_file(b: Seq<u8>) -> Result<PngView, PngError> {
    if b.len() < 8 {
        Ok(PngView { signature: Seq::empty(), chunks: Seq::empty() })
    } else if b.subrange(0, 8) != png_signature() {
        Err(PngError::MissingSignature)
    } else {
        match parse_chunks(b, 8) {
            Ok(cs) => Ok(PngView { signature: b.subrange(0, 8), chunks: cs }),
            Err(e) => Err(e),
        }
    }
}

/// A chunk as serialization writes it: length of the payload, type, payload,
/// and a CRC computed afresh over type and payload.
pub open spec fn chunk_bytes(c: ChunkView) -> Seq<u8> {
    be_bytes(c.data.len() as u32) + c.chunk_type + c.data + be_bytes(crc32_of(c.crc_input()))
}

/// The chunks serialized one after the other.
pub open spec fn chunks_bytes(cs: Seq<ChunkView>) -> Seq<u8>
    decreases cs.len(),
{
    if cs.len() == 0 {
        Seq::empty()
    } else {
        chunks_bytes(cs.drop_last()) + chunk_bytes(cs.last())
    }
}

/// A file serialized: the signature verbatim, then each chunk.
pub open spec fn serialize_file(p: PngView) -> Seq<u8> {
    p.signature + chunks_bytes(p.chunks)
}

/// Every payload fits a 32-bit length field.
pub open spec fn payloads_fit(cs: Seq<ChunkView>) -> bool {
    forall|i: int| 0 <= i < cs.len() ==> #[trigger] cs[i].data.len() <= u32::MAX
}

/// The payloads of the chunks of type `t`, concatenated in order; or
/// `LengthMismatch(i)` for the first such chunk `i` whose length field does not
/// state its payload's length.
pub open spec fn payload_of(cs: Seq<ChunkView>, t: Seq<char>) -> Result<Seq<u8>, PngError>
    decreases cs.len(),
{
    if cs.len() == 0 {
        Ok(Seq::empty())
    } else {
        match payload_of(cs.drop_last(), t) {
            Err(e) => Err(e),
            Ok(p) => {
                let c = cs.last();
                if !c.has_type(t) {
                    Ok(p)
                } else if c.length_consistent() {
                    Ok(p + c.data)
                } else {
                    Err(PngError::LengthMismatch((cs.len() - 1) as usize))
                }
            },
        }
    }
}

/// Index `i` holds the first chunk of type `t`.
pub open spec fn is_first_of_type(cs: Seq<ChunkView>, t: Seq<char>, i: int) -> bool {
    0 <= i < cs.len() && cs[i].has_type(t) && forall|j: int| 0 <= j < i ==> !(#[trigger] cs[j].has_type(t))
}

/// No chunk has type `t`.
pub open spec fn lacks_type(cs: Seq<ChunkView>, t: Seq<char>) -> bool {
    forall|j: int| 0 <= j < cs.len() ==> !(#[trigger] cs[j].has_type(t))
}

pub proof fn lemma_prepend_empty(r: Result<Seq<ChunkView>, PngError>)
    ensures
        prepend(Seq::empty(), r) == r,
{
    match r {
        Ok(s) => assert(Seq::<ChunkView>::empty() + s =~= s),
        Err(_) => {},
    }
}

pub proof fn lemma_prepend_assoc(a: Seq<ChunkView>, b: Seq<ChunkView>, r: Result<Seq<ChunkView>, PngError>)
    ensures
        prepend(a, prepend(b, r)) == prepend(a + b, r),
{
    match r {
        Ok(s) => assert(a + (b + s) =~= (a + b) + s),
        Err(_) => {},
    }
}

/// What unfiltering makes of decompressed data `d` for the image that IHDR
/// payload describes: `MalformedIhdr` where the payload is short.
pub open spec fn unfilter_with_ihdr(ihdr: ChunkView, d: Seq<u8>) -> Result<Seq<u8>, PngError> {
    if ihdr.data.len() < 13 {
        Err(PngError::MalformedIhdr)
    } else {
        strip_result(
            d,
            be32(ihdr.data.subrange(0, 4)),
            be32(ihdr.data.subrange(4, 8)),
            ihdr.data[9],
        )
    }
}

/// The IHDR payload has all 13 bytes and states this color type and bit depth.
pub open spec fn ihdr_states(ihdr: ChunkView, color_type: u8, bit_depth: u8) -> bool {
    ihdr.data.len() >= 13 && ihdr.data[9] == color_type && ihdr.data[8] == bit_depth
}

/// `b` is the PNG signature.
fn starts_with_signature(b: &Vec<u8>) -> (r: bool)
    requires
        b@.len() == 8,
    ensures
        r == (b@ == png_signature()),
{
    let expected = PNG_SIGNATURE;
    assert(expected@ =~= png_signature());
    let mut i: usize = 0;
    while i < LENGTH_OF_SIGNATURE
        invariant
            i <= 8,
            b@.len() == 8,
            expected@ == png_signature(),
            forall|j: int| 0 <= j < i ==> b@[j] == expected@[j],
        decreases 8 - i,
    {
        if b[i] != expected[i] {
            return false;
        }
        i = i + 1;
    }
    assert(b@ =~= png_signature());
    true
}

/// A PNG file: the 8-byte signature and the chunks in file order.
#[derive(Clone, Debug)]
pub struct Png {
    pub signature: Vec<u8>,
    pub chunks: Vec<Chunk>,
}

impl View for Png {
    type V = PngView;

    open spec fn view(&self) -> PngView {
        PngView { signature: self.signature@, chunks: self.chunks@.map_values(|c: Chunk| c@) }
    }
}

impl Png {
    /// Parses a whole file. A buffer shorter than a signature gives an empty
    /// file; one that does not start with the PNG signature gives
    /// `MissingSignature`; a chunk whose header or declared payload runs past the end gives
    /// `TruncatedInput` with the chunk's offset.
    pub fn new(data: Vec<u8>) -> (r: Result<Self, PngError>)
        ensures
            match parse_file(data@) {
                Ok(v) => r is Ok && r->Ok_0@ == v,
                Err(e) => r == Err::<Png, PngError>(e),
            },
    {
        if data.len() < LENGTH_OF_SIGNATURE {
            let p = Png { signature: Vec::new(), chunks: Vec::new() };
            assert(p@.chunks =~= Seq::<ChunkView>::empty());
            return Ok(p);
        }
        let signature = copy_range(data.as_slice(), 0, LENGTH_OF_SIGNATURE);
        if !starts_with_signature(&signature) {
            return Err(PngError::MissingSignature);
        }
        let mut chunks: Vec<Chunk> = Vec::new();
        let mut index: usize = LENGTH_OF_SIGNATURE;
        proof {
            lemma_prepend_empty(parse_chunks(data@, 8));
            assert(chunks@.map_values(|c: Chunk| c@) =~= Seq::<ChunkView>::empty());
        }
        while index < data.len()
            invariant
                8 <= index <= data@.len(),
                data@.subrange(0, 8) == png_signature(),
                signature@ == data@.subrange(0, 8),
                parse_chunks(data@, 8) == prepend(
                    chunks@.map_values(|c: Chunk| c@),
                    parse_chunks(data@, index as int),
                ),
            decreases data@.len() - index,
        {
            match parse_chunk(data.as_slice(), index) {
                Ok((c, end)) => {
                    proof {
                        lemma_prepend_assoc(
                            chunks@.map_values(|c: Chunk| c@),
                            seq![c@],
                            parse_chunks(data@, end as int),
                        );
                    }
                    let ghost before = chunks@;
                    chunks.push(c);
                    assert(chunks@.map_values(|c: Chunk| c@) =~= before.map_values(|c: Chunk| c@)
                        + seq![c@]);
                    index = end;
                },
                Err(e) => {
                    return Err(e);
                },
            }
        }
        let p = Png { signature, chunks };
        assert(p@.chunks + Seq::<ChunkView>::empty() =~= p@.chunks);
        Ok(p)
    }

    /// A copy of the signature.
    pub fn get_signature(&self) -> (r: Vec<u8>)
        ensures
            r@ == self.signature@,
    {
        let r = copy_range(self.signature.as_slice(), 0, self.signature.len());
        assert(r@ =~= self.signature@);
        r
    }

    /// The chunks, in file order.
    pub fn get_chunks(&self) -> (r: &Vec<Chunk>)
        ensures
            r@ == self.chunks@,
    {
        &self.chunks
    }

    /// The first chunk whose type, read as characters, is `t`; `None` where
    /// there is none.
    pub fn get_chunk_by_type(&self, t: &str) -> (r: Option<&Chunk>)
        ensures
            match r {
                Some(c) => exists|i: int| is_first_of_type(self@.chunks, t@, i) && c@ == #[trigger] self@.chunks[i],
                None => lacks_type(self@.chunks, t@),
            },
    {
        let mut i: usize = 0;
        while i < self.chunks.len()
            invariant
                i <= self.chunks@.len(),
                forall|j: int| 0 <= j < i ==> !(#[trigger] self@.chunks[j].has_type(t@)),
            decreases self.chunks@.len() - i,
        {
            if self.chunks[i].has_type(t) {
                assert(is_first_of_type(self@.chunks, t@, i as int));
                return Some(&self.chunks[i]);
            }
            i = i + 1;
        }
        None
    }

    /// The payloads of all chunks of type `t`, concatenated in file order;
    /// `LengthMismatch` with the index of the first such chunk whose length
    /// field disagrees with its payload.
    pub fn concatenated_payload(&self, t: &str) -> (r: Result<Vec<u8>, PngError>)
        ensures
            match payload_of(self@.chunks, t@) {
                Ok(p) => r is Ok && r->Ok_0@ == p,
                Err(e) => r == Err::<Vec<u8>, PngError>(e),
            },
    {
        let mut out: Vec<u8> = Vec::new();
        let mut i: usize = 0;
        while i < self.chunks.len()
            invariant
                i <= self.chunks@.len(),
                payload_of(self@.chunks.take(i as int), t@) == Ok::<Seq<u8>, PngError>(out@),
            decreases self.chunks@.len() - i,
        {
            let c = &self.chunks[i];
            assert(self@.chunks.take(i + 1).drop_last() =~= self@.chunks.take(i as int));
            if c.has_type(t) {
                if c.length.len() != 4 || c.get_length() as usize != c.data.len() {
                    assert(payload_of(self@.chunks.take(i + 1), t@) is Err);
                    proof {
                        lemma_payload_err_persists(self@.chunks, t@, i + 1);
                    }
                    return Err(PngError::LengthMismatch(i));
                }
                append_range(&mut out, c.data.as_slice(), 0, c.data.len());
                assert(c.data@.subrange(0, c.data@.len() as int) =~= c.data@);
            }
            i = i + 1;
        }
        assert(self@.chunks.take(i as int) =~= self@.chunks);
        Ok(out)
    }

    /// The payloads of all IDAT chunks, concatenated in file order: the
    /// compressed image stream.
    pub fn get_all_idat_data_as_vec(&self) -> (r: Result<Vec<u8>, PngError>)
        ensures
            match payload_of(self@.chunks, chars_of(idat_type())) {
                Ok(p) => r is Ok && r->Ok_0@ == p,
                Err(e) => r == Err::<Vec<u8>, PngError>(e),
            },
    {
        proof {
            reveal_strlit("IDAT");
            assert("IDAT"@ =~= chars_of(idat_type()));
        }
        self.concatenated_payload("IDAT")
    }

    /// The IDAT payloads as one owned buffer.
    #[allow(non_snake_case)]
    pub fn get_all_idat_data_as_DeflatedData(&self) -> (r: Result<DeflatedData, PngError>)
        ensures
            match payload_of(self@.chunks, chars_of(idat_type())) {
                Ok(p) => r is Ok && r->Ok_0@ == p,
                Err(e) => r == Err::<DeflatedData, PngError>(e),
            },
    {
        match self.get_all_idat_data_as_vec() {
            Ok(v) => Ok(DeflatedData::new(v)),
            Err(e) => Err(e),
        }
    }

    /// `data` decompressed as a zlib stream, or `None` where it is not one.
    pub fn get_inflated_data(&self, data: &[u8]) -> (r: Option<InflatedData>)
        ensures
            match r {
                Some(v) => zlib_decompressed(data@) == Some(v@),
                None => zlib_decompressed(data@) is None,
            },
    {
        match zlib_decompress(data) {
            Some(v) => Some(InflatedData::new(v)),
            None => None,
        }
    }

    /// `data` compressed into a zlib stream.
    pub fn get_deflated_data_from_inflated_data(&self, data: &InflatedData) -> (r: DeflatedData)
        ensures
            r@ == zlib_compressed(data@, DEFLATE_LEVEL),
    {
        DeflatedData::new(zlib_compress(data.as_slice(), DEFLATE_LEVEL))
    }

    /// `data`, which is consumed, compressed into a zlib stream.
    pub fn get_deflated_data_from_boxed_inflated_data(&self, data: Box<InflatedData>) -> (r:
        DeflatedData)
        ensures
            r@ == zlib_compressed(data@, DEFLATE_LEVEL),
    {
        DeflatedData::new(zlib_compress(data.as_slice(), DEFLATE_LEVEL))
    }

    /// The first IHDR chunk.
    fn ihdr(&self) -> (r: Option<&Chunk>)
        ensures
            match r {
                Some(c) => exists|i: int|
                    is_first_of_type(self@.chunks, chars_of(ihdr_type()), i) && c@
                        == #[trigger] self@.chunks[i],
                None => lacks_type(self@.chunks, chars_of(ihdr_type())),
            },
    {
        proof {
            reveal_strlit("IHDR");
            assert("IHDR"@ =~= chars_of(ihdr_type()));
        }
        self.get_chunk_by_type("IHDR")
    }

    /// Removes the scanline filter bytes from decompressed image data, with
    /// width, height and color type taken from the first IHDR chunk;
    /// `MalformedIhdr` where there is none or its payload is short.
    pub fn remove_filter_bytes_from_inflated_data(&self, inflated_data: &InflatedData) -> (r:
        Result<InflatedData, PngError>)
        ensures
            lacks_type(self@.chunks, chars_of(ihdr_type())) ==> r == Err::<InflatedData, PngError>(
                PngError::MalformedIhdr,
            ),
            forall|i: int| #[trigger]
                is_first_of_type(self@.chunks, chars_of(ihdr_type()), i) ==> match unfilter_with_ihdr(
                    self@.chunks[i],
                    inflated_data@,
                ) {
                    Ok(p) => r is Ok && r->Ok_0@ == p,
                    Err(e) => r == Err::<InflatedData, PngError>(e),
                },
    {
        let ihdr = match self.ihdr() {
            Some(c) => c,
            None => {
                return Err(PngError::MalformedIhdr);
            },
        };
        let width = match ihdr.get_width() {
            Ok(v) => v,
            Err(e) => {
                return Err(e);
            },
        };
        let height = match ihdr.get_height() {
            Ok(v) => v,
            Err(e) => {
                return Err(e);
            },
        };
        let color_type = match ihdr.get_color_type() {
            Ok(v) => v,
            Err(e) => {
                return Err(e);
            },
        };
        match strip_filter_bytes(inflated_data.as_slice(), width, height, color_type) {
            Ok(v) => Ok(InflatedData::new(v)),
            Err(e) => Err(e),
        }
    }

    /// The first IHDR chunk states this color type and bit depth; false where
    /// there is no IHDR chunk or its payload is short.
    pub fn match_color_type_and_bit_depth(&self, color_type: u8, bit_depth: u8) -> (r: bool)
        ensures
            lacks_type(self@.chunks, chars_of(ihdr_type())) ==> !r,
            forall|i: int| #[trigger]
                is_first_of_type(self@.chunks, chars_of(ihdr_type()), i) ==> r == ihdr_states(
                    self@.chunks[i],
                    color_type,
                    bit_depth,
                ),
    {
        match self.ihdr() {
            Some(c) => {
                match (c.get_color_type(), c.get_bit_depth()) {
                    (Ok(ct), Ok(bd)) => ct == color_type && bd == bit_depth,
                    _ => false,
                }
            },
            None => false,
        }
    }

    /// Checks the stored CRC of every chunk against one computed over its type
    /// and payload; `ChecksumMismatch` with the index of the first that differs.
    pub fn verify_checksums(&self) -> (r: Result<(), PngError>)
        ensures
            r is Ok <==> forall|i: int| 0 <= i < self@.chunks.len() ==> #[trigger] self@.chunks[i].crc_consistent(),
            r is Err ==> exists|i: int|
                0 <= i < self@.chunks.len() && r == Err::<(), PngError>(PngError::ChecksumMismatch(i as usize))
                    && !(#[trigger] self@.chunks[i].crc_consistent())
                    && forall|j: int| 0 <= j < i ==> self@.chunks[j].crc_consistent(),
    {
        let mut i: usize = 0;
        while i < self.chunks.len()
            invariant
                i <= self.chunks@.len(),
                forall|j: int| 0 <= j < i ==> #[trigger] self@.chunks[j].crc_consistent(),
            decreases self.chunks@.len() - i,
        {
            let c = &self.chunks[i];
            let crc = c.compute_crc();
            if !c.crc_matches(crc) {
                assert(!self@.chunks[i as int].crc_consistent());
                return Err(PngError::ChecksumMismatch(i));
            }
            i = i + 1;
        }
        Ok(())
    }

    /// The file as bytes: the signature, then each chunk with its length
    /// taken from its payload and its CRC computed afresh.
    pub fn to_bytes(&self) -> (r: Vec<u8>)
        requires
            payloads_fit(self@.chunks),
        ensures
            r@ == serialize_file(self@),
    {
        let mut out: Vec<u8> = Vec::new();
        append_range(&mut out, self.signature.as_slice(), 0, self.signature.len());
        assert(out@ =~= self.signature@ + chunks_bytes(self@.chunks.take(0)));
        let mut i: usize = 0;
        while i < self.chunks.len()
            invariant
                i <= self.chunks@.len(),
                payloads_fit(self@.chunks),
                out@ == self.signature@ + chunks_bytes(self@.chunks.take(i as int)),
            decreases self.chunks@.len() - i,
        {
            let c = &self.chunks[i];
            assert(self@.chunks[i as int] == c@);
            let crc = c.compute_crc();
            c.write_framed(&mut out, crc);
            assert(self@.chunks.take(i + 1).drop_last() =~= self@.chunks.take(i as int));
            assert(out@ =~= self.signature@ + chunks_bytes(self@.chunks.take(i + 1)));
            i = i + 1;
        }
        assert(self@.chunks.take(i as int) =~= self@.chunks);
        out
    }
}

/// Once the payloads of a prefix fail, those of every longer prefix fail the same way.
proof fn lemma_payload_err_persists(cs: Seq<ChunkView>, t: Seq<char>, k: int)
    requires
        0 <= k <= cs.len(),
        payload_of(cs.take(k), t) is Err,
    ensures
        payload_of(cs, t) == payload_of(cs.take(k), t),
    decreases cs.len() - k,
{
    if k < cs.len() {
        assert(cs.take(k + 1).drop_last() =~= cs.take(k));
        lemma_payload_err_persists(cs, t, k + 1);
    } else {
        assert(cs.take(k) =~= cs);
    }
}

} // verus!
