use notify::atlas::AtlasError;
use notify::fonts::Font;
use notify::fonts::FontError;
use notify::pbm::DecodeError;
use notify::resample::ResizeError;

fn pbm(header: &str, data: &[u8]) -> Vec<u8> {
    let mut bytes: Vec<u8> = header.as_bytes().to_vec();
    bytes.extend_from_slice(data);
    bytes
}

/// An all-white atlas of the given pixel size (width must be a multiple
/// of 8 so every byte is full).
fn white_atlas(width: usize, height: usize) -> Vec<u8> {
    let header = format!("P4\n{} {}\n", width, height);
    pbm(&header, &vec![0xffu8; width * height / 8])
}

#[test]
fn atlas_320_by_90_yields_full_glyphs() {
    // 10 x 30 native cells; font size 16 gives 8 x 16 glyph cells.
    let font = Font::from_pbm(&white_atlas(320, 90), 16).unwrap();
    assert_eq!(font.width, 8);
    assert_eq!(font.height, 16);
    let mut code = 0x20u32;
    while code <= 0x7e {
        let symbol = char::from_u32(code).unwrap();
        let glyph = font.get_glyph(symbol).unwrap();
        assert_eq!(glyph.len(), 8 * 16);
        code += 1;
    }
}

#[test]
fn lookup_returns_none_outside_printable_ascii() {
    let font = Font::from_pbm(&white_atlas(64, 6), 8).unwrap();
    let mut code = 0u32;
    while code < 0x20 {
        let symbol = char::from_u32(code).unwrap();
        assert!(font.get_glyph(symbol).is_none());
        code += 1;
    }
    assert!(font.get_glyph('\u{7f}').is_none());
    assert!(font.get_glyph('\u{80}').is_none());
    assert!(font.get_glyph('é').is_none());
    assert!(font.get_glyph('\u{1F600}').is_none());
}

#[test]
fn lookup_covers_whole_printable_range() {
    let font = Font::from_pbm(&white_atlas(64, 6), 8).unwrap();
    assert!(font.get_glyph(' ').is_some());
    assert!(font.get_glyph('A').is_some());
    assert!(font.get_glyph('~').is_some());
}

#[test]
fn resize_to_native_size_reproduces_bitmap() {
    // 128 x 24 atlas: 4 x 8 native cells; font size 8 asks for 4 x 8
    // glyphs, so resampling is the identity.  The first cell holds an
    // alternating pattern, every other cell is black.
    let mut data = vec![0u8; 128 * 24 / 8];
    for r in 0..8 {
        data[r * 16] = if r % 2 == 0 { 0xa0 } else { 0x50 };
    }
    let bytes = pbm("P4\n128 24\n", &data);
    let font = Font::from_pbm(&bytes, 8).unwrap();
    let glyph = font.get_glyph(' ').unwrap();
    let mut expected: Vec<u8> = Vec::new();
    for r in 0..8 {
        if r % 2 == 0 {
            expected.extend_from_slice(&[255, 0, 255, 0]);
        } else {
            expected.extend_from_slice(&[0, 255, 0, 255]);
        }
    }
    assert_eq!(glyph, &expected);
    // A cell left black stays black.
    let black = font.get_glyph('!').unwrap();
    assert_eq!(black, &vec![0u8; 32]);
}

#[test]
fn from_pbm_propagates_decode_error() {
    let err = Font::from_pbm(b"not a bitmap", 16).unwrap_err();
    assert_eq!(err, FontError::Decode(DecodeError::BadMagic));
}

#[test]
fn from_pbm_rejects_width_not_divisible_by_32() {
    // 40 x 3 decodes fine (15 bytes give 120 bits), but 40 % 32 != 0.
    let bytes = pbm("P4\n40 3\n", &[0u8; 15]);
    let err = Font::from_pbm(&bytes, 16).unwrap_err();
    assert_eq!(err, FontError::Atlas(AtlasError::InvalidWidth(40)));
}

#[test]
fn from_pbm_rejects_height_not_divisible_by_3() {
    let bytes = pbm("P4\n32 4\n", &[0u8; 16]);
    let err = Font::from_pbm(&bytes, 16).unwrap_err();
    assert_eq!(err, FontError::Atlas(AtlasError::InvalidHeight(4)));
}

#[test]
fn from_pbm_rejects_degenerate_font_size() {
    let atlas = white_atlas(64, 6);
    assert_eq!(
        Font::from_pbm(&atlas, 0).unwrap_err(),
        FontError::Resize(ResizeError::DegenerateTarget)
    );
    assert_eq!(
        Font::from_pbm(&atlas, 1).unwrap_err(),
        FontError::Resize(ResizeError::DegenerateTarget)
    );
}

#[test]
fn upscaled_white_atlas_is_all_white() {
    // 2 x 2 native cells resampled up to 4 x 8: a constant-white source
    // stays constant white under the normalized triangle filter.
    let font = Font::from_pbm(&white_atlas(64, 6), 8).unwrap();
    assert_eq!(font.width, 4);
    assert_eq!(font.height, 8);
    let glyph = font.get_glyph('A').unwrap();
    assert_eq!(glyph, &vec![255u8; 32]);
}
