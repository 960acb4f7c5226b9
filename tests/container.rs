use png::chunk::build_ihdr_chunk;
use png::{InflatedData, Png, PngError};

const SIGNATURE: [u8; 8] = [0x89, 0x50, 0x4E, 0x47, 0x0D, 0x0A, 0x1A, 0x0A];

fn frame(kind: &[u8; 4], data: &[u8]) -> Vec<u8> {
    let mut out = (data.len() as u32).to_be_bytes().to_vec();
    out.extend_from_slice(kind);
    out.extend_from_slice(data);
    let mut crc_input = kind.to_vec();
    crc_input.extend_from_slice(data);
    out.extend_from_slice(&crc32fast::hash(&crc_input).to_be_bytes());
    out
}

fn ihdr_payload(width: u32, height: u32, color_type: u8) -> Vec<u8> {
    let mut p = width.to_be_bytes().to_vec();
    p.extend_from_slice(&height.to_be_bytes());
    p.extend_from_slice(&[8, color_type, 0, 0, 0]);
    p
}

fn sample_file() -> Vec<u8> {
    let mut b = SIGNATURE.to_vec();
    b.extend(frame(b"IHDR", &ihdr_payload(2, 2, 2)));
    b.extend(frame(b"IDAT", &[1, 2, 3, 4, 5]));
    b.extend(frame(b"IDAT", &[6, 7, 8, 9]));
    b.extend(frame(b"IEND", &[]));
    b
}

#[test]
fn sample_file_frames_match_known_crcs() {
    let b = sample_file();
    assert_eq!(&b[29..33], &[253, 212, 154, 115]);
    assert_eq!(&b[b.len() - 4..], &[0xAE, 0x42, 0x60, 0x82]);
}

#[test]
fn parse_then_serialize_is_byte_identical() {
    let b = sample_file();
    let png = Png::new(b.clone()).unwrap();
    assert_eq!(png.get_signature(), SIGNATURE.to_vec());
    assert_eq!(png.get_chunks().len(), 4);
    let names: Vec<String> = png.get_chunks().iter().map(|c| c.get_type_name()).collect();
    assert_eq!(names, vec!["IHDR", "IDAT", "IDAT", "IEND"]);
    assert_eq!(png.to_bytes(), b);
}

#[test]
fn recomputed_crcs_equal_stored_ones() {
    let png = Png::new(sample_file()).unwrap();
    for c in png.get_chunks() {
        assert_eq!(c.compute_crc(), c.get_crc());
    }
    assert_eq!(png.verify_checksums(), Ok(()));
}

#[test]
fn corrupted_crc_is_reported_with_chunk_index() {
    let mut b = sample_file();
    let last = b.len() - 1;
    b[last] ^= 0xFF;
    let png = Png::new(b).unwrap();
    assert_eq!(png.verify_checksums(), Err(PngError::ChecksumMismatch(3)));
}

#[test]
fn serialize_writes_fresh_crc() {
    let mut png = Png::new(sample_file()).unwrap();
    png.chunks[1].crc = vec![0, 0, 0, 0];
    assert_eq!(png.to_bytes(), sample_file());
}

#[test]
fn truncated_mid_chunk_is_truncated_input() {
    let b = sample_file();
    // Cut inside the IHDR payload.
    assert_eq!(Png::new(b[..20].to_vec()).err(), Some(PngError::TruncatedInput(8)));
    // Cut inside the first IDAT chunk's header.
    assert_eq!(Png::new(b[..36].to_vec()).err(), Some(PngError::TruncatedInput(33)));
    // Cut inside the IEND chunk.
    assert_eq!(Png::new(b[..b.len() - 1].to_vec()).err(), Some(PngError::TruncatedInput(b.len() - 12)));
}

#[test]
fn cut_between_chunks_parses_a_prefix() {
    let b = sample_file();
    let png = Png::new(b[..33].to_vec()).unwrap();
    assert_eq!(png.get_chunks().len(), 1);
    assert_eq!(png.get_chunks()[0].get_type_name(), "IHDR");
}

#[test]
fn declared_length_past_end_is_truncated_input() {
    let mut b = SIGNATURE.to_vec();
    b.extend_from_slice(&[0xFF, 0xFF, 0xFF, 0xFF, b'I', b'D', b'A', b'T', 1, 2, 3, 4]);
    assert_eq!(Png::new(b).err(), Some(PngError::TruncatedInput(8)));
}

#[test]
fn buffer_shorter_than_signature_gives_empty_file() {
    let png = Png::new(vec![0x89, 0x50, 0x4E]).unwrap();
    assert!(png.get_signature().is_empty());
    assert!(png.get_chunks().is_empty());
    let png = Png::new(Vec::new()).unwrap();
    assert!(png.get_chunks().is_empty());
}

#[test]
fn find_first_chunk_by_type() {
    let png = Png::new(sample_file()).unwrap();
    let idat = png.get_chunk_by_type("IDAT").unwrap();
    assert_eq!(idat.data, vec![1, 2, 3, 4, 5]);
    assert!(png.get_chunk_by_type("PLTE").is_none());
    assert!(png.get_chunk_by_type("idat").is_none());
}

#[test]
fn idat_payloads_are_concatenated_in_order() {
    let png = Png::new(sample_file()).unwrap();
    assert_eq!(png.get_all_idat_data_as_vec(), Ok(vec![1, 2, 3, 4, 5, 6, 7, 8, 9]));
    assert_eq!(png.get_all_idat_data_as_DeflatedData().unwrap().data, vec![1, 2, 3, 4, 5, 6, 7, 8, 9]);
    assert_eq!(png.concatenated_payload("IHDR"), Ok(ihdr_payload(2, 2, 2)));
    assert_eq!(png.concatenated_payload("zzzz"), Ok(Vec::new()));
}

#[test]
fn length_mismatch_is_reported_with_chunk_index() {
    let mut png = Png::new(sample_file()).unwrap();
    png.chunks[2].length = vec![0, 0, 0, 7];
    assert_eq!(png.get_all_idat_data_as_vec(), Err(PngError::LengthMismatch(2)));
    png.chunks[2].length = vec![0, 4];
    assert_eq!(png.get_all_idat_data_as_vec(), Err(PngError::LengthMismatch(2)));
}

#[test]
fn color_type_and_bit_depth_match() {
    let png = Png::new(sample_file()).unwrap();
    assert!(png.match_color_type_and_bit_depth(2, 8));
    assert!(!png.match_color_type_and_bit_depth(3, 8));
    assert!(!png.match_color_type_and_bit_depth(2, 16));
    let mut no_ihdr = SIGNATURE.to_vec();
    no_ihdr.extend(frame(b"IEND", &[]));
    assert!(!Png::new(no_ihdr).unwrap().match_color_type_and_bit_depth(2, 8));
}

#[test]
fn unfiltering_needs_an_ihdr_chunk() {
    let mut b = SIGNATURE.to_vec();
    b.extend(frame(b"IEND", &[]));
    let png = Png::new(b).unwrap();
    let d = InflatedData::new(vec![0, 1, 2, 3]);
    assert_eq!(png.remove_filter_bytes_from_inflated_data(&d), Err(PngError::MalformedIhdr));
    let mut b = SIGNATURE.to_vec();
    b.extend(frame(b"IHDR", &[0, 0, 0, 1]));
    let png = Png::new(b).unwrap();
    assert_eq!(png.remove_filter_bytes_from_inflated_data(&d), Err(PngError::MalformedIhdr));
}

#[test]
fn unfiltering_uses_ihdr_geometry() {
    let png = Png::new(sample_file()).unwrap();
    let d = InflatedData::new(vec![0, 1, 2, 3, 4, 5, 6, 0, 7, 8, 9, 10, 11, 12]);
    let out = png.remove_filter_bytes_from_inflated_data(&d).unwrap();
    assert_eq!(out.data, vec![1, 2, 3, 4, 5, 6, 7, 8, 9, 10, 11, 12]);
    let mut b = SIGNATURE.to_vec();
    b.extend(frame(b"IHDR", &ihdr_payload(2, 2, 6)));
    let rgba = Png::new(b).unwrap();
    assert_eq!(rgba.remove_filter_bytes_from_inflated_data(&d), Err(PngError::UnsupportedColorType(6)));
}

#[test]
fn built_ihdr_serializes_like_a_hand_framed_one() {
    let c = build_ihdr_chunk(2, 2, 8, 2, 0, 0, 0);
    let mut out = Vec::new();
    c.write_framed(&mut out, c.compute_crc());
    assert_eq!(out, frame(b"IHDR", &ihdr_payload(2, 2, 2)));
}

#[test]
fn wrong_signature_is_a_parse_failure() {
    let mut b = sample_file();
    b[0] = 0;
    assert_eq!(Png::new(b).err(), Some(PngError::MissingSignature));
    assert_eq!(Png::new(vec![0; 8]).err(), Some(PngError::MissingSignature));
    assert_eq!(Png::new(vec![0; 30]).err(), Some(PngError::MissingSignature));
}

#[test]
fn non_ascii_query_matches_nothing() {
    let mut b = SIGNATURE.to_vec();
    b.extend(frame(&[0xFF, 0xFE, 0x00, 0x01], &[1]));
    let png = Png::new(b).unwrap();
    assert!(png.get_chunk_by_type("\u{FF}\u{FE}\u{0}\u{1}").is_none());
    assert!(!png.get_chunks()[0].has_type("\u{FF}\u{FE}\u{0}\u{1}"));
}

#[test]
fn type_names_decode_as_utf8() {
    let mut b = SIGNATURE.to_vec();
    b.extend(frame(&[0xC3, 0xA9, b'A', b'B'], &[]));
    b.extend(frame(&[0xFF, 0xFE, 0x00, 0x01], &[]));
    let png = Png::new(b).unwrap();
    let valid = png.get_chunks()[0].get_type_name();
    assert_eq!(valid, "\u{E9}AB");
    assert_eq!(valid.as_bytes(), &[0xC3, 0xA9, b'A', b'B']);
    assert_eq!(png.get_chunks()[1].get_type_name(), "\u{FF}\u{FE}\u{0}\u{1}");
}
