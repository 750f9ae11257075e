use notify::app::App;
use notify::app::Line;
use notify::fonts::Font;
use notify::raster;

fn pbm(header: &str, data: &[u8]) -> Vec<u8> {
    let mut bytes: Vec<u8> = header.as_bytes().to_vec();
    bytes.extend_from_slice(data);
    bytes
}

/// A font whose 96 glyphs are all white, 4 x 8 pixels each.
fn white_font() -> Font {
    let header = format!("P4\n{} {}\n", 64, 6);
    let bytes = pbm(&header, &vec![0xffu8; 64 * 6 / 8]);
    Font::from_pbm(&bytes, 8).unwrap()
}

#[test]
fn fill_background_writes_little_endian_pixels() {
    let mut canvas = vec![9u8; 9];
    raster::fill_background(&mut canvas, 0x11223344);
    // Two complete pixels in B, G, R, A order; the ninth byte is part of
    // no complete pixel and keeps its value.
    assert_eq!(canvas, vec![0x44, 0x33, 0x22, 0x11, 0x44, 0x33, 0x22, 0x11, 9]);
}

#[test]
fn draw_single_glyph_end_to_end() {
    // An 8 x 8 canvas, a 4 x 8 all-white glyph for 'A' at line 0: the
    // left half of every row turns white with full alpha, the right half
    // keeps the background.
    let font = white_font();
    let app = App::new(
        font,
        vec![Line { text: String::from("A"), highlighted: false }],
    );
    let mut canvas = vec![0u8; 8 * 8 * 4];
    app.draw(&mut canvas, 8, 8);
    for row in 0..8 {
        for col in 0..8 {
            let base = (row * 8 + col) * 4;
            let expected = if col < 4 {
                [255, 255, 255, 255]
            } else {
                [0, 0, 0, 255]
            };
            assert_eq!(&canvas[base..base + 4], &expected);
        }
    }
}

#[test]
fn characters_without_glyph_keep_their_cell() {
    // A tab has no glyph: its cell stays background, but it still holds
    // its monospaced position, so the next glyph lands one cell over.
    let font = white_font();
    let app = App::new(
        font,
        vec![Line { text: String::from("\tA"), highlighted: false }],
    );
    let mut canvas = vec![0u8; 8 * 8 * 4];
    app.draw(&mut canvas, 8, 8);
    for row in 0..8 {
        for col in 0..8 {
            let base = (row * 8 + col) * 4;
            let expected = if col >= 4 {
                [255, 255, 255, 255]
            } else {
                [0, 0, 0, 255]
            };
            assert_eq!(&canvas[base..base + 4], &expected);
        }
    }
}

#[test]
fn highlight_inverts_glyph_pixels_only() {
    let font = white_font();
    let mut plain = vec![7u8; 8 * 8 * 4];
    let mut inverted = vec![7u8; 8 * 8 * 4];
    raster::fill_background(&mut plain, 0xff000000);
    raster::fill_background(&mut inverted, 0xff000000);
    raster::draw_line(&mut plain, 8, &white_font(), 0, "A", false);
    raster::draw_line(&mut inverted, 8, &font, 0, "A", true);
    for row in 0..8 {
        for col in 0..8 {
            let base = (row * 8 + col) * 4;
            if col < 4 {
                // Glyph pixel: color channels inverted, alpha forced.
                for c in 0..3 {
                    assert_eq!(inverted[base + c], 255 - plain[base + c]);
                }
                assert_eq!(plain[base + 3], 255);
                assert_eq!(inverted[base + 3], 255);
            } else {
                // Non-glyph pixel: untouched by the draw in both runs.
                assert_eq!(&plain[base..base + 4], &inverted[base..base + 4]);
            }
        }
    }
}

#[test]
fn fill_then_draw_twice_is_idempotent() {
    let font = white_font();
    let mut canvas = vec![3u8; 8 * 8 * 4 + 2];
    raster::fill_background(&mut canvas, 0xff000000);
    raster::draw_line(&mut canvas, 8, &font, 0, "Ab", true);
    let first = canvas.clone();
    raster::fill_background(&mut canvas, 0xff000000);
    raster::draw_line(&mut canvas, 8, &font, 0, "Ab", true);
    assert_eq!(canvas, first);
}

#[test]
fn app_draw_twice_is_idempotent() {
    let font = white_font();
    let app = App::new(
        font,
        vec![
            Line { text: String::from("Hi"), highlighted: false },
            Line { text: String::from("yo"), highlighted: true },
        ],
    );
    let mut canvas = vec![0u8; 8 * 16 * 4];
    app.draw(&mut canvas, 8, 16);
    let first = canvas.clone();
    app.draw(&mut canvas, 8, 16);
    assert_eq!(canvas, first);
}

#[test]
fn text_wider_than_canvas_is_truncated() {
    // Canvas is 8 pixels wide; glyph cells are 4 wide, so only the first
    // two characters fit and the third is skipped whole.
    let font = white_font();
    let mut canvas = vec![0u8; 8 * 8 * 4];
    raster::fill_background(&mut canvas, 0xff000000);
    raster::draw_line(&mut canvas, 8, &font, 0, "AAA", false);
    for row in 0..8 {
        for col in 0..8 {
            let base = (row * 8 + col) * 4;
            assert_eq!(&canvas[base..base + 4], &[255, 255, 255, 255]);
        }
    }
    // A draw entirely outside the canvas changes nothing.
    raster::draw_line(&mut canvas, 8, &font, 9, "A", false);
    let mut untouched = vec![5u8; 16];
    raster::draw_line(&mut untouched, 8, &font, 0, "A", false);
    assert_eq!(untouched, vec![5u8; 16]);
}

#[test]
fn lines_beyond_canvas_height_are_skipped() {
    // The canvas holds one 8-pixel-tall line; the second stored line is
    // outside the height and must not be drawn.
    let font = white_font();
    let app = App::new(
        font,
        vec![
            Line { text: String::from("A"), highlighted: false },
            Line { text: String::from("A"), highlighted: false },
        ],
    );
    let mut canvas = vec![0u8; 8 * 8 * 4];
    app.draw(&mut canvas, 8, 8);
    for row in 0..8 {
        let base = (row * 8) * 4;
        assert_eq!(&canvas[base..base + 4], &[255, 255, 255, 255]);
    }
}
