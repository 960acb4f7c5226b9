//! Big-endian integers and byte-sequence helpers.
use vstd::prelude::*;

verus! {

/// The value of four bytes read in network (big-endian) order.
pub open spec fn be32(s: Seq<u8>) -> u32
    recommends
        s.len() == 4,
{
    ((s[0] as u32) << 24u32) | ((s[1] as u32) << 16u32) | ((s[2] as u32) << 8u32) | (s[3] as u32)
}

/// The four bytes of `v` in network (big-endian) order.
pub open spec fn be_bytes(v: u32) -> Seq<u8> {
    seq![(v >> 24u32) as u8, (v >> 16u32) as u8, (v >> 8u32) as u8, v as u8]
}

/// Writing a value and reading it back gives the value.
pub proof fn lemma_be32_of_be_bytes(v: u32)
    ensures
        be32(be_bytes(v)) == v,
{
    let s = be_bytes(v);
    assert(s[0] == (v >> 24u32) as u8 && s[1] == (v >> 16u32) as u8 && s[2] == (v >> 8u32) as u8
        && s[3] == v as u8);
    assert((((((v >> 24u32) as u8) as u32) << 24u32) | ((((v >> 16u32) as u8) as u32) << 16u32) | (
    (((v >> 8u32) as u8) as u32) << 8u32) | ((v as u8) as u32)) == v) by (bit_vector);
}

/// Reading four bytes and writing the value back gives the same four bytes.
pub proof fn lemma_be_bytes_of_be32(s: Seq<u8>)
    requires
        s.len() == 4,
    ensures
        be_bytes(be32(s)) == s,
{
    let (a, b, c, d) = (s[0], s[1], s[2], s[3]);
    let v = be32(s);
    assert(v == ((a as u32) << 24u32) | ((b as u32) << 16u32) | ((c as u32) << 8u32) | (d as u32));
    assert(((((a as u32) << 24u32) | ((b as u32) << 16u32) | ((c as u32) << 8u32) | (d as u32))
        >> 24u32) as u8 == a) by (bit_vector);
    assert(((((a as u32) << 24u32) | ((b as u32) << 16u32) | ((c as u32) << 8u32) | (d as u32))
        >> 16u32) as u8 == b) by (bit_vector);
    assert(((((a as u32) << 24u32) | ((b as u32) << 16u32) | ((c as u32) << 8u32) | (d as u32))
        >> 8u32) as u8 == c) by (bit_vector);
    assert(((((a as u32) << 24u32) | ((b as u32) << 16u32) | ((c as u32) << 8u32) | (d as u32))
        as u8) == d) by (bit_vector);
    assert(be_bytes(v) =~= s);
}

/// Reads the big-endian integer stored at `b[off .. off + 4]`.
pub fn read_be_u32(b: &[u8], off: usize) -> (r: u32)
    requires
        off + 4 <= b@.len(),
    ensures
        r == be32(b@.subrange(off as int, off + 4)),
{
    let s = Ghost(b@.subrange(off as int, off + 4));
    assert(s@[0] == b@[off as int] && s@[1] == b@[off + 1] && s@[2] == b@[off + 2] && s@[3] == b@[off
        + 3]);
    ((b[off] as u32) << 24u32) | ((b[off + 1] as u32) << 16u32) | ((b[off + 2] as u32) << 8u32) | (b[off
        + 3] as u32)
}

/// Appends the four big-endian bytes of `v` to `out`.
pub fn push_be_u32(out: &mut Vec<u8>, v: u32)
    ensures
        final(out)@ == old(out)@ + be_bytes(v),
{
    out.push((v >> 24u32) as u8);
    out.push((v >> 16u32) as u8);
    out.push((v >> 8u32) as u8);
    out.push(v as u8);
    assert(final(out)@ =~= old(out)@ + be_bytes(v));
}

/// Appends `src[lo .. hi]` to `out`.
pub fn append_range(out: &mut Vec<u8>, src: &[u8], lo: usize, hi: usize)
    requires
        lo <= hi <= src@.len(),
    ensures
        final(out)@ == old(out)@ + src@.subrange(lo as int, hi as int),
{
    let ghost start = out@;
    let mut i: usize = lo;
    while i < hi
        invariant
            lo <= i <= hi <= src@.len(),
            out@ == start + src@.subrange(lo as int, i as int),
        decreases hi - i,
    {
        out.push(src[i]);
        i = i + 1;
        assert(out@ =~= start + src@.subrange(lo as int, i as int));
    }
}

/// A fresh vector holding `src[lo .. hi]`.
pub fn copy_range(src: &[u8], lo: usize, hi: usize) -> (r: Vec<u8>)
    requires
        lo <= hi <= src@.len(),
    ensures
        r@ == src@.subrange(lo as int, hi as int),
{
    let mut r: Vec<u8> = Vec::with_capacity(hi - lo);
    append_range(&mut r, src, lo, hi);
    assert(r@ =~= src@.subrange(lo as int, hi as int));
    r
}

} // verus!
