use png::pixels::{add_filter_bytes, modify_png_pixel_data, strip_filter_bytes};
use png::{InflatedData, PngError};

#[test]
fn strip_rgb_rows_gives_row_major_triples() {
    let width = 3usize;
    let height = 2usize;
    let mut scanlines = Vec::new();
    let mut expected = Vec::new();
    for row in 0..height {
        scanlines.push(0u8);
        for px in 0..width {
            let base = (10 * row + 3 * px) as u8;
            scanlines.extend_from_slice(&[base, base + 1, base + 2]);
            expected.extend_from_slice(&[base, base + 1, base + 2]);
        }
    }
    let out = strip_filter_bytes(&scanlines, width as u32, height as u32, 2).unwrap();
    assert_eq!(out.len(), width * height * 3);
    assert_eq!(out, expected);
}

#[test]
fn strip_indexed_rows() {
    let d = [0, 5, 6, 0, 7, 8, 0, 9, 10];
    assert_eq!(strip_filter_bytes(&d, 2, 3, 3), Ok(vec![5, 6, 7, 8, 9, 10]));
}

#[test]
fn strip_ignores_the_filter_byte_value_and_trailing_bytes() {
    let d = [1, 5, 6, 4, 7, 8, 99];
    assert_eq!(strip_filter_bytes(&d, 2, 2, 3), Ok(vec![5, 6, 7, 8]));
}

#[test]
fn strip_rejects_other_color_types() {
    assert_eq!(strip_filter_bytes(&[0, 1, 2, 3], 1, 1, 6), Err(PngError::UnsupportedColorType(6)));
    assert_eq!(strip_filter_bytes(&[0, 1], 1, 1, 0), Err(PngError::UnsupportedColorType(0)));
}

#[test]
fn strip_reports_first_row_past_the_end() {
    // Rows of 7 bytes; 10 bytes hold row 0 only.
    let d = [0u8; 10];
    assert_eq!(strip_filter_bytes(&d, 2, 3, 2), Err(PngError::TruncatedRow(1)));
    assert_eq!(strip_filter_bytes(&[], 1, 1, 2), Err(PngError::TruncatedRow(0)));
}

#[test]
fn strip_of_empty_image_is_empty() {
    assert_eq!(strip_filter_bytes(&[], 0, 0, 2), Ok(Vec::new()));
    assert_eq!(strip_filter_bytes(&[0, 0], 0, 2, 2), Ok(Vec::new()));
}

#[test]
fn add_then_strip_gives_pixels_back() {
    let pixels: Vec<u8> = (1..=18).collect();
    let filtered = add_filter_bytes(&pixels, 3, 2, 2).unwrap();
    assert_eq!(
        filtered,
        vec![0, 1, 2, 3, 4, 5, 6, 7, 8, 9, 0, 10, 11, 12, 13, 14, 15, 16, 17, 18]
    );
    assert_eq!(strip_filter_bytes(&filtered, 3, 2, 2), Ok(pixels));
}

#[test]
fn add_rejects_wrong_pixel_count() {
    assert_eq!(add_filter_bytes(&[1, 2, 3, 4], 1, 1, 2), Err(PngError::InvalidGeometry));
    assert_eq!(add_filter_bytes(&[1, 2, 3], 1, 1, 4), Err(PngError::UnsupportedColorType(4)));
    assert_eq!(add_filter_bytes(&[1, 2], 2, 1, 3), Ok(vec![0, 1, 2]));
}

#[test]
fn paint_sets_pixels_of_unfiltered_rows() {
    let d = InflatedData::new(vec![0, 1, 2, 3, 4, 5, 6, 1, 7, 8, 9, 10, 11, 12, 42]);
    let out = modify_png_pixel_data(&d, vec![255, 0, 7], 2, 2, 2, 8).unwrap();
    assert_eq!(out.data, vec![0, 255, 0, 7, 255, 0, 7, 1, 7, 8, 9, 10, 11, 12, 42]);
}

#[test]
fn paint_leaves_other_formats_alone() {
    let d = InflatedData::new(vec![0, 1, 2, 3]);
    assert_eq!(modify_png_pixel_data(&d, vec![9, 9, 9], 1, 1, 2, 16).unwrap(), d);
    assert_eq!(modify_png_pixel_data(&d, vec![9, 9, 9], 1, 1, 3, 8).unwrap(), d);
}

#[test]
fn paint_reports_short_buffer() {
    let d = InflatedData::new(vec![0, 1, 2, 3]);
    assert_eq!(modify_png_pixel_data(&d, vec![9, 9, 9], 1, 2, 2, 8), Err(PngError::TruncatedRow(1)));
}

#[test]
fn strip_reports_size_overflow_as_invalid_geometry() {
    assert_eq!(strip_filter_bytes(&[], u32::MAX, u32::MAX, 2), Err(PngError::InvalidGeometry));
}

#[test]
fn paint_reports_size_overflow_as_invalid_geometry() {
    let d = InflatedData::new(vec![0, 1, 2, 3]);
    assert_eq!(
        modify_png_pixel_data(&d, vec![9, 9, 9], u32::MAX, u32::MAX, 2, 8),
        Err(PngError::InvalidGeometry)
    );
}

#[test]
fn paint_of_other_formats_needs_no_color() {
    let d = InflatedData::new(vec![0, 1, 2, 3]);
    assert_eq!(modify_png_pixel_data(&d, Vec::new(), 1, 1, 3, 8).unwrap(), d);
}
