use notify::fonts::Font;
use notify::pbm::DecodeError;

fn pbm(header: &str, data: &[u8]) -> Vec<u8> {
    let mut bytes: Vec<u8> = header.as_bytes().to_vec();
    bytes.extend_from_slice(data);
    bytes
}

#[test]
fn decode_byte_aligned_pattern() {
    let bytes = pbm("P4\n8 2\n", &[0b1011_0010, 0b0100_1101]);
    let (w, h, pix) = Font::parse_pbm(&bytes).unwrap();
    assert_eq!(w, 8);
    assert_eq!(h, 2);
    assert_eq!(
        pix,
        vec![
            255, 0, 255, 255, 0, 0, 255, 0, //
            0, 255, 0, 0, 255, 255, 0, 255,
        ]
    );
}

#[test]
fn decode_non_byte_aligned_width_is_continuous() {
    // 6 x 3 = 18 pixels from a continuous 24-bit stream: rows do not
    // restart at byte boundaries, and the 6 excess bits are ignored.
    let bytes = pbm("P4\n6 3\n", &[0xff, 0x00, 0xaa]);
    let (w, h, pix) = Font::parse_pbm(&bytes).unwrap();
    assert_eq!(w, 6);
    assert_eq!(h, 3);
    let mut expected: Vec<u8> = Vec::new();
    for _ in 0..8 {
        expected.push(255);
    }
    for _ in 0..8 {
        expected.push(0);
    }
    expected.push(255);
    expected.push(0);
    assert_eq!(pix, expected);
}

#[test]
fn decode_skips_comment_lines() {
    let bytes = pbm("# made for tests\nP4\n# size\n8 1\n", &[0xf0]);
    let (w, h, pix) = Font::parse_pbm(&bytes).unwrap();
    assert_eq!(w, 8);
    assert_eq!(h, 1);
    assert_eq!(pix, vec![255, 255, 255, 255, 0, 0, 0, 0]);
}

#[test]
fn decode_rejects_wrong_magic() {
    let bytes = pbm("P5\n8 1\n", &[0xf0]);
    assert_eq!(Font::parse_pbm(&bytes).unwrap_err(), DecodeError::BadMagic);
}

#[test]
fn decode_rejects_empty_input() {
    assert_eq!(Font::parse_pbm(&[]).unwrap_err(), DecodeError::BadMagic);
}

#[test]
fn decode_rejects_missing_height() {
    let bytes = pbm("P4\n8\n", &[0xf0]);
    assert_eq!(
        Font::parse_pbm(&bytes).unwrap_err(),
        DecodeError::BadDimensions
    );
}

#[test]
fn decode_rejects_three_fields() {
    let bytes = pbm("P4\n8 1 9\n", &[0xf0]);
    assert_eq!(
        Font::parse_pbm(&bytes).unwrap_err(),
        DecodeError::BadDimensions
    );
}

#[test]
fn decode_rejects_zero_dimension() {
    let bytes = pbm("P4\n0 5\n", &[0xf0]);
    assert_eq!(
        Font::parse_pbm(&bytes).unwrap_err(),
        DecodeError::BadDimensions
    );
}

#[test]
fn decode_rejects_non_numeric_dimension() {
    let bytes = pbm("P4\nten 5\n", &[0xf0]);
    assert_eq!(
        Font::parse_pbm(&bytes).unwrap_err(),
        DecodeError::BadDimensions
    );
}

#[test]
fn decode_rejects_truncated_stream() {
    // 8 x 2 = 16 pixels need 2 bytes; only 1 is supplied.
    let bytes = pbm("P4\n8 2\n", &[0xff]);
    assert_eq!(Font::parse_pbm(&bytes).unwrap_err(), DecodeError::Truncated);
}

#[test]
fn decode_rejects_missing_data() {
    let bytes = pbm("P4\n8 2\n", &[]);
    assert_eq!(Font::parse_pbm(&bytes).unwrap_err(), DecodeError::Truncated);
}
