//! Scanline filter bytes: removing them from decompressed image data, and
//! putting them (filter type None) in front of each row of flat pixels.
use vstd::prelude::*;

use crate::buffer::InflatedData;
use crate::bytes::{append_range, copy_range};
use crate::error::PngError;

verus! {

/// Bytes per pixel of the color types that unfiltering handles: 3 for RGB
/// (color type 2), 1 for a palette index (color type 3).
pub open spec fn bytes_per_pixel(color_type: u8) -> Option<nat> {
    if color_type == 2 {
        Some(3)
    } else if color_type == 3 {
        Some(1)
    } else {
        None
    }
}

/// The pixel bytes of the first `h` scanlines of `d`, where each scanline is
/// one filter byte followed by `row_len` pixel bytes.
pub open spec fn scanline_pixels(d: Seq<u8>, row_len: nat, h: nat) -> Seq<u8>
    decreases h,
{
    if h == 0 {
        Seq::empty()
    } else {
        scanline_pixels(d, row_len, (h - 1) as nat) + d.subrange(
            ((h - 1) * (row_len + 1) + 1) as int,
            (h * (row_len + 1)) as int,
        )
    }
}

/// The rows of `p`, `row_len` bytes each, each preceded by a zero filter byte.
pub open spec fn with_filter_bytes(p: Seq<u8>, row_len: nat, h: nat) -> Seq<u8>
    decreases h,
{
    if h == 0 {
        Seq::empty()
    } else {
        with_filter_bytes(p, row_len, (h - 1) as nat) + seq![0u8] + p.subrange(
            ((h - 1) * row_len) as int,
            (h * row_len) as int,
        )
    }
}

/// What unfiltering makes of `d` for an image of the given geometry: the
/// pixel bytes of its `height` scanlines; `UnsupportedColorType` for a color
/// type other than 2 or 3; `InvalidGeometry` where the scanlines' total size
/// does not fit in a `usize`; `TruncatedRow` with the first row that runs past
/// the end of `d`.
pub open spec fn strip_result(d: Seq<u8>, width: u32, height: u32, color_type: u8) -> Result<
    Seq<u8>,
    PngError,
> {
    match bytes_per_pixel(color_type) {
        None => Err(PngError::UnsupportedColorType(color_type)),
        Some(bpp) => {
            let row_len = width as nat * bpp;
            if height as nat * (row_len + 1) > usize::MAX {
                Err(PngError::InvalidGeometry)
            } else if height as nat * (row_len + 1) > d.len() {
                Err(PngError::TruncatedRow((d.len() / (row_len + 1)) as usize))
            } else {
                Ok(scanline_pixels(d, row_len, height as nat))
            }
        },
    }
}

/// What filtering makes of flat pixels `p`: each row prefixed with filter type
/// None; `UnsupportedColorType` for a color type other than 2 or 3;
/// `InvalidGeometry` where `p` does not hold exactly `height` rows or the
/// result would not fit in memory.
pub open spec fn filter_result(p: Seq<u8>, width: u32, height: u32, color_type: u8) -> Result<
    Seq<u8>,
    PngError,
> {
    match bytes_per_pixel(color_type) {
        None => Err(PngError::UnsupportedColorType(color_type)),
        Some(bpp) => {
            let row_len = width as nat * bpp;
            if p.len() != height as nat * row_len || p.len() + height > usize::MAX {
                Err(PngError::InvalidGeometry)
            } else {
                Ok(with_filter_bytes(p, row_len, height as nat))
            }
        },
    }
}

/// Row `row` of `h` rows of `n` bytes ends within the rows.
proof fn lemma_row_bounds(row: nat, h: nat, n: nat)
    requires
        row < h,
    ensures
        (row + 1) * n == row * n + n,
        row * n + n <= h * n,
        row + 1 == h ==> h * n == row * n + n,
{
    assert((row + 1) * n == row * n + n) by (nonlinear_arith);
    assert(row * n + n <= h * n) by (nonlinear_arith)
        requires
            row + 1 <= h,
    ;
}

/// A scanline after painting: where its filter byte is zero (filter type
/// None), each byte after it becomes the matching component of `rgb`; any
/// other scanline is kept.
pub open spec fn painted_row(row: Seq<u8>, rgb: Seq<u8>) -> Seq<u8> {
    if row[0] == 0 {
        seq![0u8] + Seq::new((row.len() - 1) as nat, |j: int| rgb[j % 3])
    } else {
        row
    }
}

/// The first `h` scanlines of `d`, each one filter byte and `row_len` pixel
/// bytes, painted.
pub open spec fn painted_rows(d: Seq<u8>, rgb: Seq<u8>, row_len: nat, h: nat) -> Seq<u8>
    decreases h,
{
    if h == 0 {
        Seq::empty()
    } else {
        painted_rows(d, rgb, row_len, (h - 1) as nat) + painted_row(
            d.subrange(((h - 1) * (row_len + 1)) as int, (h * (row_len + 1)) as int),
            rgb,
        )
    }
}

/// What painting makes of scanlines `d`: for an 8-bit RGB image, every pixel
/// of every scanline with filter type None set to `rgb`, and bytes past the
/// last scanline kept; `InvalidGeometry` where the scanlines' total size does
/// not fit in a `usize`; `TruncatedRow` with the first row that runs past the
/// end of `d`. Other color types and bit depths leave `d` as it is.
pub open spec fn paint_result(
    d: Seq<u8>,
    rgb: Seq<u8>,
    width: u32,
    height: u32,
    color_type: u8,
    bit_depth: u8,
) -> Result<Seq<u8>, PngError> {
    if !(color_type == 2 && bit_depth == 8) {
        Ok(d)
    } else {
        let row_len = width as nat * 3;
        if height as nat * (row_len + 1) > usize::MAX {
            Err(PngError::InvalidGeometry)
        } else if height as nat * (row_len + 1) > d.len() {
            Err(PngError::TruncatedRow((d.len() / (row_len + 1)) as usize))
        } else {
            Ok(
                painted_rows(d, rgb, row_len, height as nat) + d.subrange(
                    (height as nat * (row_len + 1)) as int,
                    d.len() as int,
                ),
            )
        }
    }
}

proof fn lemma_scanline_pixels_len(d: Seq<u8>, row_len: nat, h: nat)
    requires
        h * (row_len + 1) <= d.len(),
    ensures
        scanline_pixels(d, row_len, h).len() == h * row_len,
    decreases h,
{
    if h > 0 {
        let k = (h - 1) as nat;
        lemma_row_bounds(k, h, row_len + 1);
        lemma_row_bounds(k, h, row_len);
        lemma_scanline_pixels_len(d, row_len, k);
        let tail = d.subrange((k * (row_len + 1) + 1) as int, (h * (row_len + 1)) as int);
        assert(tail.len() == row_len);
        assert(scanline_pixels(d, row_len, h) == scanline_pixels(d, row_len, k) + tail);
        assert(k * row_len + row_len == h * row_len);
    } else {
        assert(h * row_len == 0) by (nonlinear_arith)
            requires
                h == 0,
        ;
    }
}

/// Removes the leading filter byte of each of `height` scanlines and returns
/// the pixel bytes, `width * height * bytes_per_pixel` of them. The filter
/// byte is not looked at: only filter type None decodes correctly.
pub fn strip_filter_bytes(d: &[u8], width: u32, height: u32, color_type: u8) -> (r: Result<
    Vec<u8>,
    PngError,
>)
    ensures
        match strip_result(d@, width, height, color_type) {
            Ok(p) => r is Ok && r->Ok_0@ == p,
            Err(e) => r == Err::<Vec<u8>, PngError>(e),
        },
{
    let bpp: u128 = if color_type == 2 {
        3
    } else if color_type == 3 {
        1
    } else {
        return Err(PngError::UnsupportedColorType(color_type));
    };
    let row_len_wide: u128 = width as u128 * bpp;
    let stride_wide: u128 = row_len_wide + 1;
    assert(height as u128 * stride_wide <= 0x4_0000_0000_0000_0000u128) by (nonlinear_arith)
        requires
            height <= 0xFFFF_FFFFu32,
            stride_wide <= 0x3_0000_0000u128,
    ;
    let needed: u128 = height as u128 * stride_wide;
    if needed > usize::MAX as u128 {
        return Err(PngError::InvalidGeometry);
    }
    if needed > d.len() as u128 {
        return Err(PngError::TruncatedRow((d.len() as u128 / stride_wide) as usize));
    }
    if height == 0 {
        return Ok(Vec::new());
    }
    assert(stride_wide <= needed) by (nonlinear_arith)
        requires
            needed == height as u128 * stride_wide,
            height >= 1,
    ;
    let row_len = row_len_wide as usize;
    let stride = stride_wide as usize;
    let h = height as usize;
    proof {
        lemma_scanline_pixels_len(d@, row_len as nat, h as nat);
        assert(h * row_len <= h * stride) by (nonlinear_arith)
            requires
                stride == row_len + 1,
        ;
    }
    let len = d.len();
    let mut out: Vec<u8> = Vec::with_capacity(h * row_len);
    let mut row: usize = 0;
    while row < h
        invariant
            row <= h,
            h == height,
            stride == row_len + 1,
            row_len == width as nat * (if color_type == 2 { 3nat } else { 1nat }),
            h * stride <= d@.len() == len,
            out@ == scanline_pixels(d@, row_len as nat, row as nat),
        decreases h - row,
    {
        proof {
            lemma_row_bounds(row as nat, h as nat, stride as nat);
            lemma_row_bounds(row as nat, h as nat, row_len as nat);
            lemma_scanline_pixels_len(d@, row_len as nat, (row + 1) as nat);
        }
        assert(row * stride + stride <= d@.len());
        let start = row * stride + 1;
        append_range(&mut out, d, start, start + row_len);
        row = row + 1;
    }
    Ok(out)
}

/// Puts a zero filter byte (filter type None) in front of each of `height`
/// rows of `width` pixels.
pub fn add_filter_bytes(p: &[u8], width: u32, height: u32, color_type: u8) -> (r: Result<
    Vec<u8>,
    PngError,
>)
    ensures
        match filter_result(p@, width, height, color_type) {
            Ok(q) => r is Ok && r->Ok_0@ == q,
            Err(e) => r == Err::<Vec<u8>, PngError>(e),
        },
{
    let bpp: u128 = if color_type == 2 {
        3
    } else if color_type == 3 {
        1
    } else {
        return Err(PngError::UnsupportedColorType(color_type));
    };
    let row_len_wide: u128 = width as u128 * bpp;
    assert(height as u128 * row_len_wide <= 0x4_0000_0000_0000_0000u128) by (nonlinear_arith)
        requires
            height <= 0xFFFF_FFFFu32,
            row_len_wide <= 0x3_0000_0000u128,
    ;
    if p.len() as u128 != height as u128 * row_len_wide {
        return Err(PngError::InvalidGeometry);
    }
    if p.len() as u128 + height as u128 > usize::MAX as u128 {
        return Err(PngError::InvalidGeometry);
    }
    let h = height as usize;
    if h == 0 {
        return Ok(Vec::new());
    }
    assert(row_len_wide <= p@.len()) by (nonlinear_arith)
        requires
            p@.len() == height as u128 * row_len_wide,
            height >= 1,
    ;
    let row_len = row_len_wide as usize;
    let len = p.len();
    let mut out: Vec<u8> = Vec::with_capacity(p.len() + h);
    let mut row: usize = 0;
    while row < h
        invariant
            row <= h,
            h == height,
            row_len == width as nat * (if color_type == 2 { 3nat } else { 1nat }),
            p@.len() == h * row_len,
            p@.len() == len,
            out@ == with_filter_bytes(p@, row_len as nat, row as nat),
        decreases h - row,
    {
        proof {
            lemma_row_bounds(row as nat, h as nat, row_len as nat);
        }
        let start = row * row_len;
        out.push(0u8);
        append_range(&mut out, p, start, start + row_len);
        row = row + 1;
    }
    Ok(out)
}

/// Sets every pixel of each scanline with filter type None to the color
/// `data[0..3]`, for 8-bit RGB images; returns the scanlines so changed.
/// Other color types and bit depths are returned unchanged, and `data` is not read.
pub fn modify_png_pixel_data(
    pixels: &InflatedData,
    data: Vec<u8>,
    width: u32,
    height: u32,
    color_type: u8,
    bit_depth: u8,
) -> (r: Result<InflatedData, PngError>)
    requires
        color_type == 2 && bit_depth == 8 ==> data@.len() >= 3,
    ensures
        match paint_result(pixels@, data@, width, height, color_type, bit_depth) {
            Ok(q) => r is Ok && r->Ok_0@ == q,
            Err(e) => r == Err::<InflatedData, PngError>(e),
        },
{
    let d = pixels.as_slice();
    let len = d.len();
    if !(color_type == 2 && bit_depth == 8) {
        let same = copy_range(d, 0, len);
        assert(same@ =~= d@);
        return Ok(InflatedData::new(same));
    }
    let row_len_wide: u128 = width as u128 * 3;
    let stride_wide: u128 = row_len_wide + 1;
    assert(height as u128 * stride_wide <= 0x4_0000_0000_0000_0000u128) by (nonlinear_arith)
        requires
            height <= 0xFFFF_FFFFu32,
            stride_wide <= 0x3_0000_0000u128,
    ;
    let needed: u128 = height as u128 * stride_wide;
    if needed > usize::MAX as u128 {
        return Err(PngError::InvalidGeometry);
    }
    if needed > len as u128 {
        return Err(PngError::TruncatedRow((len as u128 / stride_wide) as usize));
    }
    let h = height as usize;
    let mut out: Vec<u8> = Vec::with_capacity(len);
    if h == 0 {
        append_range(&mut out, d, 0, len);
        assert(out@ =~= painted_rows(d@, data@, width as nat * 3, 0) + d@.subrange(0, len as int));
        return Ok(InflatedData::new(out));
    }
    assert(stride_wide <= needed) by (nonlinear_arith)
        requires
            needed == height as u128 * stride_wide,
            height >= 1,
    ;
    let row_len = row_len_wide as usize;
    let stride = stride_wide as usize;
    let mut row: usize = 0;
    while row < h
        invariant
            row <= h,
            h == height,
            stride == row_len + 1,
            row_len == width as nat * 3,
            h * stride <= d@.len() == len,
            data@.len() >= 3,
            out@ == painted_rows(d@, data@, row_len as nat, row as nat),
        decreases h - row,
    {
        proof {
            lemma_row_bounds(row as nat, h as nat, stride as nat);
        }
        let start = row * stride;
        let ghost before = out@;
        let ghost line = d@.subrange(start as int, (start + stride) as int);
        if d[start] == 0 {
            out.push(0u8);
            let mut j: usize = 0;
            while j < row_len
                invariant
                    j <= row_len,
                    data@.len() >= 3,
                    out@ == before + seq![0u8] + Seq::new(j as nat, |x: int| data@[x % 3]),
                decreases row_len - j,
            {
                out.push(data[j % 3]);
                j = j + 1;
                assert(out@ =~= before + seq![0u8] + Seq::new(j as nat, |x: int| data@[x % 3]));
            }
            assert(line[0] == 0);
            assert(painted_row(line, data@) =~= seq![0u8] + Seq::new(row_len as nat, |x: int| data@[x % 3]));
            assert(out@ =~= before + painted_row(line, data@));
        } else {
            append_range(&mut out, d, start, start + stride);
        }
        assert((row + 1) * stride == row * stride + stride);
        row = row + 1;
    }
    append_range(&mut out, d, h * stride, len);
    Ok(InflatedData::new(out))
}

} // verus!
