//! Properties that relate the operations of the library to one another.
use vstd::prelude::*;

use crate::assemble::{assembled, assembly_accepts};
use crate::bytes::{be32, be_bytes, lemma_be32_of_be_bytes, lemma_be_bytes_of_be32};
use crate::chunk::{chars_of, idat_type, iend_type, ihdr_type, parse_chunk_at, ChunkView};
use crate::container::{
    chunk_bytes, chunks_bytes, parse_chunks, parse_file, payloads_fit, png_signature,
    serialize_file, PngView,
};
use crate::error::PngError;
use crate::pixels::{bytes_per_pixel, scanline_pixels, strip_result, with_filter_bytes};

verus! {

/// A buffer that starts with the PNG signature, parses, and whose chunks all
/// carry the CRC of their type and payload.
pub open spec fn well_formed_file(b: Seq<u8>) -> bool {
    &&& b.len() >= 8
    &&& parse_file(b) is Ok
    &&& forall|i: int|
        0 <= i < parse_file(b)->Ok_0.chunks.len() ==> (#[trigger] parse_file(
            b,
        )->Ok_0.chunks[i]).crc_consistent()
}

/// Bytes that the chunks take up in a file: twelve of framing each, plus payloads.
pub open spec fn framed_len(cs: Seq<ChunkView>) -> nat
    decreases cs.len(),
{
    if cs.len() == 0 {
        0
    } else {
        12 + cs[0].data.len() + framed_len(cs.drop_first())
    }
}

proof fn lemma_chunks_bytes_cons(c: ChunkView, rest: Seq<ChunkView>)
    ensures
        chunks_bytes(seq![c] + rest) == chunk_bytes(c) + chunks_bytes(rest),
    decreases rest.len(),
{
    let s = seq![c] + rest;
    if rest.len() == 0 {
        assert(s.drop_last() =~= Seq::<ChunkView>::empty());
        assert(s.last() == c);
        assert(chunks_bytes(s.drop_last()) == Seq::<u8>::empty());
        assert(chunks_bytes(rest) == Seq::<u8>::empty());
        assert(chunks_bytes(s) == chunks_bytes(s.drop_last()) + chunk_bytes(s.last()));
        assert(chunks_bytes(s) =~= chunk_bytes(c) + chunks_bytes(rest));
    } else {
        assert(s.drop_last() =~= seq![c] + rest.drop_last());
        assert(s.last() == rest.last());
        lemma_chunks_bytes_cons(c, rest.drop_last());
        assert(chunks_bytes(s) == chunks_bytes(s.drop_last()) + chunk_bytes(s.last()));
        assert(chunks_bytes(rest) == chunks_bytes(rest.drop_last()) + chunk_bytes(rest.last()));
        assert(chunks_bytes(s) =~= chunk_bytes(c) + chunks_bytes(rest));
    }
}

proof fn lemma_chunks_round_trip(b: Seq<u8>, off: int)
    requires
        0 <= off <= b.len(),
        parse_chunks(b, off) is Ok,
        forall|i: int|
            0 <= i < parse_chunks(b, off)->Ok_0.len() ==> (#[trigger] parse_chunks(
                b,
                off,
            )->Ok_0[i]).crc_consistent(),
    ensures
        chunks_bytes(parse_chunks(b, off)->Ok_0) == b.subrange(off, b.len() as int),
        payloads_fit(parse_chunks(b, off)->Ok_0),
    decreases b.len() - off,
{
    let cs = parse_chunks(b, off)->Ok_0;
    if off >= b.len() {
        assert(b.subrange(off, b.len() as int) =~= Seq::<u8>::empty());
    } else {
        let (c, end) = parse_chunk_at(b, off)->Ok_0;
        let rest = parse_chunks(b, end)->Ok_0;
        assert(cs == seq![c] + rest);
        assert forall|i: int| 0 <= i < rest.len() implies (#[trigger] rest[i]).crc_consistent() by {
            assert(cs[i + 1] == rest[i]);
        }
        lemma_chunks_round_trip(b, end);
        lemma_chunks_bytes_cons(c, rest);
        assert(cs[0] == c);
        lemma_be_bytes_of_be32(c.length);
        assert(c.data.len() as u32 == be32(c.length));
        assert(chunk_bytes(c) =~= b.subrange(off, end));
        assert(chunks_bytes(cs) =~= b.subrange(off, b.len() as int));
        assert forall|i: int| 0 <= i < cs.len() implies #[trigger] cs[i].data.len() <= u32::MAX by {
            if i > 0 {
                assert(cs[i] == rest[i - 1]);
            }
        }
    }
}

/// Parsing a well-formed file and serializing the result gives back the same
/// bytes: chunk order, lengths and CRCs are kept exactly.
pub proof fn lemma_serialize_parse_round_trip(b: Seq<u8>)
    requires
        well_formed_file(b),
    ensures
        payloads_fit(parse_file(b)->Ok_0.chunks),
        serialize_file(parse_file(b)->Ok_0) == b,
{
    let p = parse_file(b)->Ok_0;
    assert(p.chunks == parse_chunks(b, 8)->Ok_0);
    lemma_chunks_round_trip(b, 8);
    assert(serialize_file(p) =~= b);
}

/// A chunk as serialization writes it: a four-byte type, a payload whose
/// length fits the length field, that length stated, and the CRC of type and
/// payload.
pub open spec fn canonical_chunk(c: ChunkView) -> bool {
    &&& c.chunk_type.len() == 4
    &&& c.data.len() <= u32::MAX
    &&& c.length == be_bytes(c.data.len() as u32)
    &&& c.crc_consistent()
}

proof fn lemma_parse_serialized_chunks(b: Seq<u8>, off: int, cs: Seq<ChunkView>)
    requires
        0 <= off <= b.len(),
        b.subrange(off, b.len() as int) == chunks_bytes(cs),
        forall|i: int| 0 <= i < cs.len() ==> canonical_chunk(#[trigger] cs[i]),
    ensures
        parse_chunks(b, off) == Ok::<Seq<ChunkView>, PngError>(cs),
    decreases cs.len(),
{
    if cs.len() == 0 {
        assert(b.subrange(off, b.len() as int).len() == 0);
        assert(cs =~= Seq::<ChunkView>::empty());
    } else {
        let c = cs[0];
        let rest = cs.drop_first();
        assert(cs =~= seq![c] + rest);
        lemma_chunks_bytes_cons(c, rest);
        assert(canonical_chunk(c));
        let n = c.data.len() as int;
        let end = off + 12 + n;
        let cb = chunk_bytes(c);
        assert(cb.len() == 12 + n);
        let tail = b.subrange(off, b.len() as int);
        assert(tail == cb + chunks_bytes(rest));
        assert(tail.len() == b.len() - off);
        assert(tail.len() == cb.len() + chunks_bytes(rest).len());
        assert(end <= b.len());
        assert(b.subrange(off, off + 4) =~= tail.subrange(0, 4));
        assert(tail.subrange(0, 4) =~= be_bytes(n as u32));
        lemma_be32_of_be_bytes(n as u32);
        assert(b.subrange(off + 4, off + 8) =~= tail.subrange(4, 8));
        assert(tail.subrange(4, 8) =~= c.chunk_type);
        assert(b.subrange(off + 8, off + 8 + n) =~= tail.subrange(8, 8 + n));
        assert(tail.subrange(8, 8 + n) =~= c.data);
        assert(b.subrange(off + 8 + n, end) =~= tail.subrange(8 + n, 12 + n));
        assert(tail.subrange(8 + n, 12 + n) =~= c.crc);
        assert(b.subrange(end, b.len() as int) =~= tail.subrange(12 + n, tail.len() as int));
        assert(tail.subrange(12 + n, tail.len() as int) =~= chunks_bytes(rest));
        assert forall|i: int| 0 <= i < rest.len() implies canonical_chunk(#[trigger] rest[i]) by {
            assert(rest[i] == cs[i + 1]);
        }
        lemma_parse_serialized_chunks(b, end, rest);
        let parsed = parse_chunk_at(b, off)->Ok_0.0;
        assert(parsed == c);
    }
}

/// Serializing a file that has the PNG signature and whose chunks are all
/// canonical, then parsing the bytes, gives back the same file.
pub proof fn lemma_parse_serialize_round_trip(p: PngView)
    requires
        p.signature == png_signature(),
        forall|i: int| 0 <= i < p.chunks.len() ==> canonical_chunk(#[trigger] p.chunks[i]),
    ensures
        parse_file(serialize_file(p)) == Ok::<PngView, PngError>(p),
{
    let b = serialize_file(p);
    assert(b.subrange(8, b.len() as int) =~= chunks_bytes(p.chunks));
    lemma_parse_serialized_chunks(b, 8, p.chunks);
    assert(b.subrange(0, 8) =~= p.signature);
}

/// A file assembled from accepted inputs, once serialized, parses back to itself.
pub proof fn lemma_assembled_file_parses_back(width: u32, height: u32, compressed: Seq<u8>)
    requires
        assembly_accepts(width, height, compressed),
    ensures
        parse_file(serialize_file(assembled(width, height, compressed))) == Ok::<
            PngView,
            PngError,
        >(assembled(width, height, compressed)),
{
    let p = assembled(width, height, compressed);
    assert forall|i: int| 0 <= i < p.chunks.len() implies canonical_chunk(#[trigger] p.chunks[i]) by {
        assert(p.chunks[0].data.len() == 13);
    }
    lemma_parse_serialize_round_trip(p);
}

proof fn lemma_truncated_chunks(b: Seq<u8>, k: int, off: int)
    requires
        0 <= off <= k <= b.len(),
        parse_chunks(b, off) is Ok,
    ensures
        match parse_chunks(b.take(k), off) {
            Ok(q) => q.len() <= parse_chunks(b, off)->Ok_0.len() && q == parse_chunks(
                b,
                off,
            )->Ok_0.take(q.len() as int) && k == off + framed_len(q),
            Err(e) => e is TruncatedInput,
        },
    decreases b.len() - off,
{
    let t = b.take(k);
    if off == k {
        assert(parse_chunks(t, off) == Ok::<Seq<ChunkView>, PngError>(Seq::empty()));
        assert(parse_chunks(b, off)->Ok_0.take(0) =~= Seq::<ChunkView>::empty());
    } else {
        let cs = parse_chunks(b, off)->Ok_0;
        let (c, end) = parse_chunk_at(b, off)->Ok_0;
        let rest = parse_chunks(b, end)->Ok_0;
        if end <= k {
            assert(t.subrange(off, off + 4) =~= b.subrange(off, off + 4));
            assert(parse_chunk_at(t, off) == parse_chunk_at(b, off)) by {
                assert(t.subrange(off + 4, off + 8) =~= b.subrange(off + 4, off + 8));
                assert(t.subrange(off + 8, off + 8 + c.data.len()) =~= b.subrange(
                    off + 8,
                    off + 8 + c.data.len(),
                ));
                assert(t.subrange(off + 8 + c.data.len(), end) =~= b.subrange(
                    off + 8 + c.data.len(),
                    end,
                ));
            }
            lemma_truncated_chunks(b, k, end);
            match parse_chunks(t, end) {
                Ok(q2) => {
                    let q = seq![c] + q2;
                    assert(parse_chunks(t, off) == Ok::<Seq<ChunkView>, PngError>(q));
                    assert(q.drop_first() =~= q2);
                    assert(cs == seq![c] + rest);
                    assert(q =~= cs.take(q.len() as int));
                },
                Err(_) => {},
            }
        } else {
            if off + 12 <= k {
                assert(t.subrange(off, off + 4) =~= b.subrange(off, off + 4));
            }
        }
    }
}

/// A well-formed file cut short at any point past its signature either parses
/// to a prefix of its chunks, which happens only where the cut falls between
/// two chunks, or fails with `TruncatedInput`.
pub proof fn lemma_truncation_safety(b: Seq<u8>, k: int)
    requires
        well_formed_file(b),
        8 <= k <= b.len(),
    ensures
        match parse_file(b.take(k)) {
            Ok(q) => q.signature == parse_file(b)->Ok_0.signature && q.chunks == parse_file(
                b,
            )->Ok_0.chunks.take(q.chunks.len() as int) && k == 8 + framed_len(q.chunks),
            Err(e) => e is TruncatedInput,
        },
{
    lemma_truncated_chunks(b, k, 8);
    assert(b.take(k).subrange(0, 8) =~= b.subrange(0, 8));
}

proof fn lemma_with_filter_bytes_len(p: Seq<u8>, row_len: nat, h: nat)
    requires
        h * row_len <= p.len(),
    ensures
        with_filter_bytes(p, row_len, h).len() == h * (row_len + 1),
    decreases h,
{
    if h > 0 {
        let k = (h - 1) as nat;
        assert(k * row_len + row_len == h * row_len) by (nonlinear_arith)
            requires
                k + 1 == h,
        ;
        assert(k * (row_len + 1) + row_len + 1 == h * (row_len + 1)) by (nonlinear_arith)
            requires
                k + 1 == h,
        ;
        lemma_with_filter_bytes_len(p, row_len, k);
    } else {
        assert(h * (row_len + 1) == 0) by (nonlinear_arith)
            requires
                h == 0,
        ;
    }
}

proof fn lemma_scanline_pixels_prefix(d1: Seq<u8>, d2: Seq<u8>, row_len: nat, h: nat)
    requires
        h * (row_len + 1) <= d1.len() <= d2.len(),
        d1 == d2.take(d1.len() as int),
    ensures
        scanline_pixels(d1, row_len, h) == scanline_pixels(d2, row_len, h),
    decreases h,
{
    if h > 0 {
        let k = (h - 1) as nat;
        assert(k * (row_len + 1) + row_len + 1 == h * (row_len + 1)) by (nonlinear_arith)
            requires
                k + 1 == h,
        ;
        lemma_scanline_pixels_prefix(d1, d2, row_len, k);
        assert(d1.subrange((k * (row_len + 1) + 1) as int, (h * (row_len + 1)) as int)
            =~= d2.subrange((k * (row_len + 1) + 1) as int, (h * (row_len + 1)) as int));
    }
}

proof fn lemma_unfilter_filtered_rows(p: Seq<u8>, row_len: nat, h: nat)
    requires
        h * row_len <= p.len(),
    ensures
        scanline_pixels(with_filter_bytes(p, row_len, h), row_len, h) == p.take(
            (h * row_len) as int,
        ),
    decreases h,
{
    if h == 0 {
        assert(h * row_len == 0) by (nonlinear_arith)
            requires
                h == 0,
        ;
        assert(p.take(0) =~= Seq::<u8>::empty());
    } else {
        let k = (h - 1) as nat;
        assert(k * row_len + row_len == h * row_len) by (nonlinear_arith)
            requires
                k + 1 == h,
        ;
        assert(k * (row_len + 1) + row_len + 1 == h * (row_len + 1)) by (nonlinear_arith)
            requires
                k + 1 == h,
        ;
        let prev = with_filter_bytes(p, row_len, k);
        let full = with_filter_bytes(p, row_len, h);
        lemma_with_filter_bytes_len(p, row_len, k);
        lemma_with_filter_bytes_len(p, row_len, h);
        assert(prev == full.take(prev.len() as int)) by {
            assert(prev =~= full.take(prev.len() as int));
        }
        lemma_scanline_pixels_prefix(prev, full, row_len, k);
        lemma_unfilter_filtered_rows(p, row_len, k);
        let row = full.subrange((k * (row_len + 1) + 1) as int, (h * (row_len + 1)) as int);
        assert(row =~= p.subrange((k * row_len) as int, (h * row_len) as int));
        assert(p.take((k * row_len) as int) + row =~= p.take((h * row_len) as int));
    }
}

/// Unfiltering scanlines that are each a zero filter byte followed by a row of
/// pixels gives back exactly those pixels, in row-major order, wherever the
/// scanlines fit in memory.
pub proof fn lemma_unfilter_of_filtered(p: Seq<u8>, width: u32, height: u32, color_type: u8)
    requires
        bytes_per_pixel(color_type) is Some,
        p.len() == height as nat * (width as nat * bytes_per_pixel(color_type)->Some_0),
        height as nat * (width as nat * bytes_per_pixel(color_type)->Some_0 + 1) <= usize::MAX,
    ensures
        strip_result(
            with_filter_bytes(p, width as nat * bytes_per_pixel(color_type)->Some_0, height as nat),
            width,
            height,
            color_type,
        ) == Ok::<Seq<u8>, PngError>(p),
{
    let row_len = width as nat * bytes_per_pixel(color_type)->Some_0;
    lemma_with_filter_bytes_len(p, row_len, height as nat);
    lemma_unfilter_filtered_rows(p, row_len, height as nat);
    assert(p.take(p.len() as int) =~= p);
}

/// An assembled file has exactly three chunks, IHDR, IDAT and IEND in that
/// order, with IHDR stating a 13-byte payload and IEND an empty one.
pub proof fn lemma_assembly_minimal(width: u32, height: u32, compressed: Seq<u8>)
    ensures
        assembled(width, height, compressed).chunks.len() == 3,
        assembled(width, height, compressed).chunks[0].has_type(chars_of(ihdr_type())),
        assembled(width, height, compressed).chunks[1].has_type(chars_of(idat_type())),
        assembled(width, height, compressed).chunks[2].has_type(chars_of(iend_type())),
        be32(assembled(width, height, compressed).chunks[0].length) == 13,
        be32(assembled(width, height, compressed).chunks[2].length) == 0,
{
    lemma_be32_of_be_bytes(13);
    lemma_be32_of_be_bytes(0);
    let cs = assembled(width, height, compressed).chunks;
    assert(cs[0].data.len() == 13);
}

} // verus!
