use png::{create_png_from_boxed_defalted_data, create_png_from_deflated_data, DeflatedData, InflatedData, Png, PngError};

const SIGNATURE: [u8; 8] = [0x89, 0x50, 0x4E, 0x47, 0x0D, 0x0A, 0x1A, 0x0A];

fn frame(kind: &[u8; 4], data: &[u8]) -> Vec<u8> {
    let mut out = (data.len() as u32).to_be_bytes().to_vec();
    out.extend_from_slice(kind);
    out.extend_from_slice(data);
    let mut crc_input = kind.to_vec();
    crc_input.extend_from_slice(data);
    out.extend_from_slice(&crc32fast::hash(&crc_input).to_be_bytes());
    out
}

fn empty_file() -> Png {
    Png::new(SIGNATURE.to_vec()).unwrap()
}

#[test]
fn assembly_makes_exactly_three_chunks() {
    let compressed = DeflatedData::new(vec![0x78, 0x9C, 1, 2, 3]);
    let png = create_png_from_deflated_data(4, 4, &compressed).unwrap();
    assert_eq!(png.get_signature(), SIGNATURE.to_vec());
    let chunks = png.get_chunks();
    assert_eq!(chunks.len(), 3);
    assert_eq!(chunks[0].get_type_name(), "IHDR");
    assert_eq!(chunks[1].get_type_name(), "IDAT");
    assert_eq!(chunks[2].get_type_name(), "IEND");
    assert_eq!(chunks[0].get_length(), 13);
    assert_eq!(chunks[2].get_length(), 0);
    assert_eq!(chunks[1].get_length(), 5);
    assert_eq!(chunks[1].data, vec![0x78, 0x9C, 1, 2, 3]);
    assert_eq!(chunks[0].data, vec![0, 0, 0, 4, 0, 0, 0, 4, 8, 2, 0, 0, 0]);
    assert_eq!(png.verify_checksums(), Ok(()));
}

#[test]
fn assembled_file_serializes_to_standard_bytes() {
    let compressed = DeflatedData::new(vec![1, 2, 3, 4, 5]);
    let png = create_png_from_boxed_defalted_data(2, 2, Box::new(compressed)).unwrap();
    let mut expected = SIGNATURE.to_vec();
    expected.extend(frame(b"IHDR", &[0, 0, 0, 2, 0, 0, 0, 2, 8, 2, 0, 0, 0]));
    expected.extend(frame(b"IDAT", &[1, 2, 3, 4, 5]));
    expected.extend(frame(b"IEND", &[]));
    assert_eq!(png.to_bytes(), expected);
}

#[test]
fn zero_width_or_height_is_invalid_input() {
    let bytes = DeflatedData::new(vec![1, 2, 3]);
    assert!(create_png_from_deflated_data(0, 10, &bytes).is_none());
    assert!(create_png_from_deflated_data(10, 0, &bytes).is_none());
    assert!(create_png_from_boxed_defalted_data(0, 10, Box::new(bytes.clone())).is_none());
}

#[test]
fn empty_payload_is_invalid_input() {
    assert!(create_png_from_deflated_data(4, 4, &DeflatedData::new(Vec::new())).is_none());
}

#[test]
fn deflate_then_inflate_restores_data() {
    let png = empty_file();
    let raw = InflatedData::new((0..200u32).map(|i| (i % 7) as u8).collect());
    let compressed = png.get_deflated_data_from_inflated_data(&raw);
    assert_ne!(compressed.data, raw.data);
    assert_eq!(compressed.data[0], 0x78);
    let back = png.get_inflated_data(compressed.as_slice()).unwrap();
    assert_eq!(back, raw);
    let boxed = png.get_deflated_data_from_boxed_inflated_data(Box::new(raw.clone()));
    assert_eq!(boxed, compressed);
}

#[test]
fn inflating_garbage_gives_none() {
    let png = empty_file();
    assert!(png.get_inflated_data(&[1, 2, 3, 4]).is_none());
}

#[test]
fn scenario_single_idat_inflate_and_unfilter() {
    let png = empty_file();
    let raw = InflatedData::new(vec![0, 1, 2, 3, 0, 4, 5, 6]);
    let compressed = png.get_deflated_data_from_inflated_data(&raw);

    // Two scanlines of one RGB pixel each.
    let mut file = SIGNATURE.to_vec();
    file.extend(frame(b"IHDR", &[0, 0, 0, 1, 0, 0, 0, 2, 8, 2, 0, 0, 0]));
    file.extend(frame(b"IDAT", &compressed.data));
    file.extend(frame(b"IEND", &[]));

    let parsed = Png::new(file).unwrap();
    let idat = parsed.get_all_idat_data_as_vec().unwrap();
    assert_eq!(idat, compressed.data);
    let inflated = parsed.get_inflated_data(&idat).unwrap();
    assert_eq!(inflated.data, vec![0, 1, 2, 3, 0, 4, 5, 6]);
    let pixels = parsed.remove_filter_bytes_from_inflated_data(&inflated).unwrap();
    assert_eq!(pixels.data, vec![1, 2, 3, 4, 5, 6]);
    let chunk_inflated = parsed.get_chunk_by_type("IDAT").unwrap().get_inflated_data().unwrap();
    assert_eq!(chunk_inflated, inflated);
}

#[test]
fn scenario_width_two_needs_longer_rows() {
    let png = empty_file();
    let raw = InflatedData::new(vec![0, 1, 2, 3, 0, 4, 5, 6]);
    let compressed = png.get_deflated_data_from_inflated_data(&raw);
    let mut file = SIGNATURE.to_vec();
    file.extend(frame(b"IHDR", &[0, 0, 0, 2, 0, 0, 0, 2, 8, 2, 0, 0, 0]));
    file.extend(frame(b"IDAT", &compressed.data));
    file.extend(frame(b"IEND", &[]));
    let parsed = Png::new(file).unwrap();
    let inflated = parsed.get_inflated_data(&parsed.get_all_idat_data_as_vec().unwrap()).unwrap();
    assert_eq!(parsed.remove_filter_bytes_from_inflated_data(&inflated), Err(PngError::TruncatedRow(1)));
}

#[test]
fn buffer_length_is_reported() {
    let d = DeflatedData::new(vec![1, 2, 3]);
    assert_eq!(d.len(), 3);
    assert_eq!(d.as_slice(), &[1, 2, 3]);
}

#[test]
fn assembled_file_parses_back_to_itself() {
    let compressed = DeflatedData::new(vec![9, 8, 7, 6]);
    let png = create_png_from_deflated_data(3, 5, &compressed).unwrap();
    let parsed = Png::new(png.to_bytes()).unwrap();
    assert_eq!(parsed.get_signature(), png.get_signature());
    assert_eq!(parsed.get_chunks(), png.get_chunks());
}
