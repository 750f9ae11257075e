//! Rasterizes lines of monospaced text into an ARGB8888 pixel buffer.
//!
//! The canvas is a byte buffer in B, G, R, A order per pixel (the
//! little-endian layout of a 32-bit `0xAARRGGBB` value), `canvas_width`
//! pixels per row.  `fill_background` paints every complete pixel with one
//! color; `draw_line` paints the glyphs of one line of text into the
//! horizontal band the line index selects.  Every glyph cell is drawn
//! whole or not at all: a cell that would stick out past the row width or
//! past the end of the buffer is skipped, so no write ever lands outside
//! the supplied buffer.  A character without a glyph keeps its cell but
//! paints nothing, and the alpha channel of every painted pixel is forced
//! to full opacity.

use vstd::arithmetic::div_mod::lemma_fundamental_div_mod;
use vstd::arithmetic::div_mod::lemma_fundamental_div_mod_converse;
use vstd::prelude::*;
use crate::fonts::Font;

verus! {

/// Byte `k % 4` of the little-endian encoding of `color`, the value every
/// filled canvas byte takes.
pub open spec fn argb_byte(color: u32, k: int) -> u8 {
    ((color >> (((k % 4) * 8) as u32)) & 0xff) as u8
}

/// The canvas after `fill_background`: every byte of a complete 4-byte
/// pixel holds its channel of `color`; trailing bytes of an incomplete
/// pixel keep their old value.
pub open spec fn fill_spec(s: Seq<u8>, color: u32) -> Seq<u8> {
    Seq::new(
        s.len(),
        |k: int|
            if k < 4 * (s.len() as int / 4) {
                argb_byte(color, k)
            } else {
                s[k]
            },
    )
}

/// Whether the character at position `i` of `text` paints its glyph cell:
/// it is printable ASCII and the whole cell, horizontally and vertically,
/// lies inside a canvas of `s_len` bytes.
pub open spec fn cell_drawn(
    font: Font,
    cw: int,
    li: int,
    text: Seq<char>,
    s_len: int,
    i: int,
) -> bool {
    &&& 0 <= i < text.len()
    &&& 0x20 <= (text[i] as u32) <= 0x7e
    &&& (i + 1) * font.width <= cw
    &&& 4 * ((li * font.height + font.height - 1) * cw + (i + 1) * font.width) <= s_len
}

/// Whether canvas byte `k` is painted by `draw_line`: it lies in the band
/// of line `li` and in the cell of a character that is drawn.
pub open spec fn line_covers(
    font: Font,
    cw: int,
    li: int,
    text: Seq<char>,
    s_len: int,
    k: int,
) -> bool {
    let row = (k / 4) / cw;
    let col = (k / 4) % cw;
    let i = col / (font.width as int);
    &&& cw >= 1
    &&& font.width >= 1
    &&& 0 <= k < s_len
    &&& li * font.height <= row < li * font.height + font.height
    &&& cell_drawn(font, cw, li, text, s_len, i)
}

/// The value a painted canvas byte takes: the glyph intensity (inverted
/// when highlighted) in the three color channels, full opacity in alpha.
pub open spec fn line_value(
    font: Font,
    cw: int,
    li: int,
    text: Seq<char>,
    hl: bool,
    k: int,
) -> u8 {
    let row = (k / 4) / cw;
    let col = (k / 4) % cw;
    let i = col / (font.width as int);
    if k % 4 == 3 {
        255u8
    } else {
        let v = font.glyphs@[(text[i] as u32) as int - 0x20]@[(row - li * font.height) * font.width
            + (col - i * font.width)];
        if hl {
            (255 - v) as u8
        } else {
            v
        }
    }
}

/// The canvas after `draw_line`: painted bytes take their glyph value,
/// every other byte keeps its old value.
pub open spec fn draw_line_spec(
    s: Seq<u8>,
    font: Font,
    cw: int,
    li: int,
    text: Seq<char>,
    hl: bool,
) -> Seq<u8> {
    Seq::new(
        s.len(),
        |k: int|
            if line_covers(font, cw, li, text, s.len() as int, k) {
                line_value(font, cw, li, text, hl, k)
            } else {
                s[k]
            },
    )
}

/// Whether byte `k` lies in the glyph cell of character `ci` on line `li`.
pub open spec fn in_cell(cw: int, fw: int, fh: int, li: int, ci: int, k: int) -> bool {
    let row = (k / 4) / cw;
    let col = (k / 4) % cw;
    &&& li * fh <= row < li * fh + fh
    &&& ci * fw <= col < (ci + 1) * fw
}

/// The byte a blitted cell writes at `k`: the glyph sample for the pixel,
/// inverted when highlighted, with alpha forced to 255.
pub open spec fn cell_byte(
    g: Seq<u8>,
    cw: int,
    fw: int,
    fh: int,
    li: int,
    ci: int,
    hl: bool,
    k: int,
) -> u8 {
    let row = (k / 4) / cw;
    let col = (k / 4) % cw;
    if k % 4 == 3 {
        255u8
    } else {
        let v = g[(row - li * fh) * fw + (col - ci * fw)];
        if hl {
            (255 - v) as u8
        } else {
            v
        }
    }
}

/// The part of a cell already written after `j` full glyph rows and `ii`
/// pixels of row `j`.
spec fn in_cell_upto(cw: int, fw: int, fh: int, li: int, ci: int, j: int, ii: int, k: int) -> bool {
    let row = (k / 4) / cw;
    let col = (k / 4) % cw;
    &&& in_cell(cw, fw, fh, li, ci, k)
    &&& (row - li * fh < j || (row - li * fh == j && col - ci * fw < ii))
}

/// Fills every complete 4-byte pixel of the canvas with `color`, stored
/// little-endian (B, G, R, A in memory); bytes of a trailing incomplete
/// pixel are left as they are.
#[verifier::loop_isolation(false)]
pub fn fill_background(canvas: &mut Vec<u8>, color: u32)
    ensures
        final(canvas)@ == fill_spec(old(canvas)@, color),
{
    let ghost orig = canvas@;
    let b0: u8 = ((color >> 0u32) & 0xff) as u8;
    let b1: u8 = ((color >> 8u32) & 0xff) as u8;
    let b2: u8 = ((color >> 16u32) & 0xff) as u8;
    let b3: u8 = ((color >> 24u32) & 0xff) as u8;
    let n = canvas.len();
    let q = n / 4;
    let mut p: usize = 0;
    while p < q
        invariant
            p <= q,
            canvas@.len() == orig.len(),
            forall|k: int| 0 <= k < 4 * p ==> canvas@[k] == argb_byte(color, k),
            forall|k: int| 4 * p <= k < orig.len() ==> canvas@[k] == orig[k],
        decreases q - p,
    {
        canvas.set(4 * p, b0);
        canvas.set(4 * p + 1, b1);
        canvas.set(4 * p + 2, b2);
        canvas.set(4 * p + 3, b3);
        proof {
            assert(b0 == argb_byte(color, 4 * p as int));
            assert(b1 == argb_byte(color, 4 * p as int + 1));
            assert(b2 == argb_byte(color, 4 * p as int + 2));
            assert(b3 == argb_byte(color, 4 * p as int + 3));
        }
        p = p + 1;
    }
    proof {
        assert(canvas@ =~= fill_spec(orig, color));
    }
}

/// Distributing one extra multiplicand: `(a + 1) * b == a * b + b`.
proof fn lemma_mul_step(a: int, b: int)
    by (nonlinear_arith)
    ensures
        (a + 1) * b == a * b + b,
{
}

/// A cell whose last byte fits the buffer never reaches past the filled
/// (complete-pixel) part of the canvas.
proof fn lemma_covered_in_filled(font: Font, cw: int, li: int, text: Seq<char>, s_len: int, k: int)
    requires
        line_covers(font, cw, li, text, s_len, k),
        font.height >= 1,
    ensures
        k < 4 * (s_len / 4),
{
    let p = k / 4;
    let row = p / cw;
    let col = p % cw;
    let i = col / (font.width as int);
    lemma_fundamental_div_mod(k, 4);
    lemma_fundamental_div_mod(p, cw);
    lemma_fundamental_div_mod(col, font.width as int);
    lemma_mul_step(i, font.width as int);
    assert(col < (i + 1) * font.width);
    let e = (li * font.height + font.height - 1) * cw + (i + 1) * font.width;
    assert(p <= e - 1) by (nonlinear_arith)
        requires
            p == row * cw + col,
            row <= li * font.height + font.height - 1,
            col < cw,
            cw >= 1,
            e == (li * font.height + font.height - 1) * cw + (i + 1) * font.width,
            col < (i + 1) * font.width,
            i == col / (font.width as int),
            font.width >= 1,
            row >= 0,
            col >= 0,
    ;
    assert(4 * e <= s_len);
    assert(k == 4 * p + k % 4 && k % 4 < 4);
    assert(p <= s_len / 4 - 1);
    assert(k < 4 * (s_len / 4));
}

/// Every canvas byte inside the cell bounded by the requires is painted
/// with the glyph's sample for that pixel (alpha forced to 255), and
/// nothing outside the cell changes.
#[verifier::loop_isolation(false)]
#[verifier::rlimit(30)]
fn blit_cell(
    canvas: &mut Vec<u8>,
    cw: usize,
    glyph: &Vec<u8>,
    fw: usize,
    fh: usize,
    li: usize,
    ci: usize,
    hl: bool,
)
    requires
        cw >= 1,
        fw >= 1,
        fh >= 1,
        glyph@.len() == fw * fh,
        (ci + 1) * fw <= cw,
        4 * ((li * fh + fh - 1) * cw + (ci + 1) * fw) <= old(canvas)@.len(),
    ensures
        final(canvas)@.len() == old(canvas)@.len(),
        forall|k: int|
            0 <= k < old(canvas)@.len() ==> final(canvas)@[k] == (if in_cell(
                cw as int,
                fw as int,
                fh as int,
                li as int,
                ci as int,
                k,
            ) {
                cell_byte(glyph@, cw as int, fw as int, fh as int, li as int, ci as int, hl, k)
            } else {
                old(canvas)@[k]
            }),
{
    let ghost orig = canvas@;
    let ghost cwi = cw as int;
    let gl = glyph.len();
    let len = canvas.len();
    let ghost e = (li * fh + fh - 1) * (cw as int) + (ci + 1) * (fw as int);
    proof {
        assert(li * fh + fh - 1 <= e && (li * fh + fh - 1) * cwi <= e) by (nonlinear_arith)
            requires
                cwi >= 1,
                fw >= 1,
                fh >= 1,
                li >= 0,
                ci >= 0,
                e == (li * fh + fh - 1) * cwi + (ci + 1) * (fw as int),
        ;
    }
    let row0 = li * fh;
    let mut j: usize = 0;
    while j < fh
        invariant
            j <= fh,
            canvas@.len() == orig.len(),
            forall|k: int|
                0 <= k < orig.len() ==> canvas@[k] == (if in_cell_upto(
                    cw as int,
                    fw as int,
                    fh as int,
                    li as int,
                    ci as int,
                    j as int,
                    0,
                    k,
                ) {
                    cell_byte(glyph@, cw as int, fw as int, fh as int, li as int, ci as int, hl, k)
                } else {
                    orig[k]
                }),
        decreases fh - j,
    {
        let row = row0 + j;
        proof {
            assert(row * cwi <= (li * fh + fh - 1) * cwi) by (nonlinear_arith)
                requires
                    cwi >= 1,
                    0 <= row <= li * fh + fh - 1,
            ;
        }
        let row_cw = row * cw;
        proof {
            lemma_mul_step(ci as int, fw as int);
        }
        let col0 = ci * fw;
        let mut ii: usize = 0;
        while ii < fw
            invariant
                ii <= fw,
                j < fh,
                row == li * fh + j,
                row_cw == row * cw,
                col0 == ci * fw,
                canvas@.len() == orig.len(),
                forall|k: int|
                    0 <= k < orig.len() ==> canvas@[k] == (if in_cell_upto(
                        cw as int,
                        fw as int,
                        fh as int,
                        li as int,
                        ci as int,
                        j as int,
                        ii as int,
                        k,
                    ) {
                        cell_byte(
                            glyph@,
                            cw as int,
                            fw as int,
                            fh as int,
                            li as int,
                            ci as int,
                            hl,
                            k,
                        )
                    } else {
                        orig[k]
                    }),
            decreases fw - ii,
        {
            let ghost prev = canvas@;
            let col = col0 + ii;
            let p = row_cw + col;
            proof {
                assert(glyph@.len() == fw * fh && j * fw + ii < fw * fh) by (nonlinear_arith)
                    requires
                        glyph@.len() == fw * fh,
                        0 <= j < fh,
                        0 <= ii < fw,
                ;
            }
            let v = glyph[j * fw + ii];
            let pv: u8 = if hl {
                255 - v
            } else {
                v
            };
            let b = 4 * p;
            canvas.set(b, pv);
            canvas.set(b + 1, pv);
            canvas.set(b + 2, pv);
            canvas.set(b + 3, 255);
            proof {
                lemma_fundamental_div_mod_converse(p as int, cwi, row as int, col as int);
                assert forall|k: int| 0 <= k < orig.len() implies canvas@[k] == (if in_cell_upto(
                    cw as int,
                    fw as int,
                    fh as int,
                    li as int,
                    ci as int,
                    j as int,
                    ii + 1,
                    k,
                ) {
                    cell_byte(glyph@, cw as int, fw as int, fh as int, li as int, ci as int, hl, k)
                } else {
                    orig[k]
                }) by {
                    if b as int <= k < b as int + 4 {
                        lemma_fundamental_div_mod_converse(k, 4, p as int, k - 4 * (p as int));
                        assert(k / 4 == p as int);
                        assert((k / 4) / cwi == row as int && (k / 4) % cwi == col as int);
                        assert(in_cell_upto(
                            cw as int,
                            fw as int,
                            fh as int,
                            li as int,
                            ci as int,
                            j as int,
                            ii + 1,
                            k,
                        ));
                    } else {
                        assert(canvas@[k] == prev[k]);
                        let kp = k / 4;
                        let krow = kp / cwi;
                        let kcol = kp % cwi;
                        if krow == row as int && kcol == col as int {
                            lemma_fundamental_div_mod(k, 4);
                            lemma_fundamental_div_mod(kp, cwi);
                            assert(cwi * krow == krow * cwi) by (nonlinear_arith);
                            assert(kp == row * cw + col);
                            assert(b as int <= k < b as int + 4);
                            assert(false);
                        }
                        assert(in_cell_upto(
                            cw as int,
                            fw as int,
                            fh as int,
                            li as int,
                            ci as int,
                            j as int,
                            ii + 1,
                            k,
                        ) == in_cell_upto(
                            cw as int,
                            fw as int,
                            fh as int,
                            li as int,
                            ci as int,
                            j as int,
                            ii as int,
                            k,
                        ));
                    }
                }
            }
            ii = ii + 1;
        }
        j = j + 1;
        proof {
            assert forall|k: int| 0 <= k < orig.len() implies (in_cell_upto(
                cw as int,
                fw as int,
                fh as int,
                li as int,
                ci as int,
                j as int,
                0,
                k,
            ) == in_cell_upto(
                cw as int,
                fw as int,
                fh as int,
                li as int,
                ci as int,
                j - 1,
                fw as int,
                k,
            )) by {
                lemma_mul_step(ci as int, fw as int);
            }
        }
    }
}

/// Characters that are skipped leave the set of painted bytes unchanged.
proof fn lemma_skip_char(font: Font, cw: int, li: int, text: Seq<char>, s_len: int, i: int)
    requires
        !cell_drawn(font, cw, li, text, s_len, i),
    ensures
        forall|k: int|
            line_covers_upto(font, cw, li, text, s_len, i + 1, k) == line_covers_upto(
                font,
                cw,
                li,
                text,
                s_len,
                i,
                k,
            ),
{
    assert forall|k: int|
        line_covers_upto(font, cw, li, text, s_len, i + 1, k) == line_covers_upto(
            font,
            cw,
            li,
            text,
            s_len,
            i,
            k,
        ) by {
        if line_covers(font, cw, li, text, s_len, k) {
            let col = (k / 4) % cw;
            assert(col / (font.width as int) != i);
        }
    }
}

/// The painted bytes of the characters before position `upto` of the
/// line's text.
pub open spec fn line_covers_upto(
    font: Font,
    cw: int,
    li: int,
    text: Seq<char>,
    s_len: int,
    upto: int,
    k: int,
) -> bool {
    let col = (k / 4) % cw;
    &&& line_covers(font, cw, li, text, s_len, k)
    &&& col / (font.width as int) < upto
}

/// Draws one line of text into its horizontal band of the canvas.
///
/// The band of `line_index` covers the pixel rows from
/// `line_index * font.height` on; character position `i` of the text (by
/// character, not byte) occupies the cell starting at column
/// `i * font.width` — the layout is strictly monospaced, and a character
/// without a glyph keeps its cell but paints nothing.  Each painted pixel
/// takes the glyph sample in its three color channels, inverted when
/// `highlighted`, and full opacity in alpha.  A cell that would reach past
/// the row width or past the end of the buffer is skipped whole, so every
/// write stays inside the buffer.
#[verifier::loop_isolation(false)]
#[verifier::rlimit(30)]
pub fn draw_line(
    canvas: &mut Vec<u8>,
    canvas_width: usize,
    font: &Font,
    line_index: usize,
    text: &str,
    highlighted: bool,
)
    requires
        font.wf(),
    ensures
        final(canvas)@ == draw_line_spec(
            old(canvas)@,
            *font,
            canvas_width as int,
            line_index as int,
            text@,
            highlighted,
        ),
{
    let ghost orig = canvas@;
    let ghost sl = orig.len() as int;
    let ghost cwi = canvas_width as int;
    if canvas_width == 0 {
        proof {
            assert(canvas@ =~= draw_line_spec(orig, *font, cwi, line_index as int, text@, highlighted));
        }
        return;
    }
    let fw = font.width;
    let fh = font.height;
    let len = canvas.len();
    let n = text.unicode_len();
    let mut i: usize = 0;
    while i < n
        invariant
            i <= n,
            n == text@.len(),
            canvas@.len() == orig.len(),
            forall|k: int|
                0 <= k < sl ==> canvas@[k] == (if line_covers_upto(
                    *font,
                    cwi,
                    line_index as int,
                    text@,
                    sl,
                    i as int,
                    k,
                ) {
                    line_value(*font, cwi, line_index as int, text@, highlighted, k)
                } else {
                    orig[k]
                }),
        decreases n - i,
    {
        let ghost drawn = cell_drawn(*font, cwi, line_index as int, text@, sl, i as int);
        let c = text.get_char(i);
        let cu = c as u32;
        if cu < 0x20 || cu > 0x7e {
            proof {
                lemma_skip_char(*font, cwi, line_index as int, text@, sl, i as int);
            }
            i = i + 1;
            continue ;
        }
        // Horizontal fit: (i + 1) * fw <= canvas_width.
        let dfit = match (i + 1).checked_mul(fw) {
            Some(d) => d,
            None => {
                proof {
                    lemma_skip_char(*font, cwi, line_index as int, text@, sl, i as int);
                }
                i = i + 1;
                continue ;
            },
        };
        if dfit > canvas_width {
            proof {
                lemma_skip_char(*font, cwi, line_index as int, text@, sl, i as int);
            }
            i = i + 1;
            continue ;
        }
        // Vertical / byte-length fit:
        // 4 * ((line_index * fh + fh - 1) * canvas_width + (i + 1) * fw) <= len.
        let ghost e = (line_index * fh + fh - 1) * cwi + (i + 1) * (fw as int);
        proof {
            assert(e >= line_index * fh && e >= line_index * fh + fh - 1 && e >= (line_index * fh
                + fh - 1) * cwi && e >= 0) by (nonlinear_arith)
                requires
                    cwi >= 1,
                    fw >= 1,
                    fh >= 1,
                    0 <= line_index,
                    e == (line_index * fh + fh - 1) * cwi + (i + 1) * (fw as int),
                    0 <= i,
            ;
        }
        let fits: Option<usize> = match line_index.checked_mul(fh) {
            Some(a1) => match a1.checked_add(fh - 1) {
                Some(a2) => match a2.checked_mul(canvas_width) {
                    Some(a3) => match a3.checked_add(dfit) {
                        Some(a4) => a4.checked_mul(4),
                        None => None,
                    },
                    None => None,
                },
                None => None,
            },
            None => None,
        };
        let bound = match fits {
            Some(b) => b,
            None => {
                proof {
                    assert(e > usize::MAX || 4 * e > usize::MAX);
                    assert(4 * e > sl);
                    lemma_skip_char(*font, cwi, line_index as int, text@, sl, i as int);
                }
                i = i + 1;
                continue ;
            },
        };
        if bound > len {
            proof {
                lemma_skip_char(*font, cwi, line_index as int, text@, sl, i as int);
            }
            i = i + 1;
            continue ;
        }
        // The cell is drawn.
        let ghost prev = canvas@;
        let glyph = &font.glyphs[(cu as usize) - 0x20];
        blit_cell(canvas, canvas_width, glyph, fw, fh, line_index, i, highlighted);
        proof {
            assert(drawn);
            lemma_draw_char_step(
                orig,
                prev,
                canvas@,
                glyph@,
                *font,
                cwi,
                line_index as int,
                text@,
                highlighted,
                i as int,
            );
        }
        i = i + 1;
    }
    proof {
        assert forall|k: int| 0 <= k < sl implies line_covers_upto(
            *font,
            cwi,
            line_index as int,
            text@,
            sl,
            n as int,
            k,
        ) == line_covers(*font, cwi, line_index as int, text@, sl, k) by {}
        assert(canvas@ =~= draw_line_spec(orig, *font, cwi, line_index as int, text@, highlighted));
    }
}

/// One drawn character extends the painted region by exactly its cell.
proof fn lemma_draw_char_step(
    orig: Seq<u8>,
    prev: Seq<u8>,
    cur: Seq<u8>,
    g: Seq<u8>,
    font: Font,
    cw: int,
    li: int,
    text: Seq<char>,
    hl: bool,
    i: int,
)
    requires
        font.wf(),
        cw >= 1,
        0 <= i,
        cell_drawn(font, cw, li, text, orig.len() as int, i),
        li >= 0,
        g == font.glyphs@[(text[i] as u32) as int - 0x20]@,
        prev.len() == orig.len(),
        cur.len() == orig.len(),
        forall|k: int|
            0 <= k < orig.len() ==> prev[k] == (if line_covers_upto(
                font,
                cw,
                li,
                text,
                orig.len() as int,
                i,
                k,
            ) {
                line_value(font, cw, li, text, hl, k)
            } else {
                orig[k]
            }),
        forall|k: int|
            0 <= k < orig.len() ==> cur[k] == (if in_cell(
                cw,
                font.width as int,
                font.height as int,
                li,
                i,
                k,
            ) {
                cell_byte(g, cw, font.width as int, font.height as int, li, i, hl, k)
            } else {
                prev[k]
            }),
    ensures
        forall|k: int|
            0 <= k < orig.len() ==> cur[k] == (if line_covers_upto(
                font,
                cw,
                li,
                text,
                orig.len() as int,
                i + 1,
                k,
            ) {
                line_value(font, cw, li, text, hl, k)
            } else {
                orig[k]
            }),
{
    let sl = orig.len() as int;
    let fw = font.width as int;
    let fh = font.height as int;
    assert forall|k: int| 0 <= k < sl implies cur[k] == (if line_covers_upto(
        font,
        cw,
        li,
        text,
        sl,
        i + 1,
        k,
    ) {
        line_value(font, cw, li, text, hl, k)
    } else {
        orig[k]
    }) by {
        let p = k / 4;
        let row = p / cw;
        let col = p % cw;
        lemma_fundamental_div_mod(k, 4);
        lemma_fundamental_div_mod(p, cw);
        if in_cell(cw, fw, fh, li, i, k) {
            lemma_mul_step(i, fw);
            lemma_fundamental_div_mod_converse(col, fw, i, col - i * fw);
            assert(col / fw == i);
            assert(line_covers_upto(font, cw, li, text, sl, i + 1, k));
            assert(cell_byte(g, cw, fw, fh, li, i, hl, k) == line_value(font, cw, li, text, hl, k));
        } else {
            assert(cur[k] == prev[k]);
            if line_covers(font, cw, li, text, sl, k) && col / fw == i {
                lemma_fundamental_div_mod(col, fw);
                lemma_mul_step(i, fw);
                assert(i * fw <= col < (i + 1) * fw);
                assert(in_cell(cw, fw, fh, li, i, k));
                assert(false);
            }
        }
    }
}

/// Painting a line with `highlighted` on gives, at every glyph pixel, the
/// inverted sample `255 - v` of what painting it with `highlighted` off
/// gives, forces the same full alpha, and leaves every byte outside the
/// painted cells exactly as it was.
pub proof fn lemma_highlight_inversion(
    s: Seq<u8>,
    font: Font,
    cw: int,
    li: int,
    text: Seq<char>,
    k: int,
)
    requires
        0 <= k < s.len(),
    ensures
        ({
            let plain = draw_line_spec(s, font, cw, li, text, false);
            let inv = draw_line_spec(s, font, cw, li, text, true);
            &&& !line_covers(font, cw, li, text, s.len() as int, k) ==> plain[k] == s[k] && inv[k]
                == s[k]
            &&& line_covers(font, cw, li, text, s.len() as int, k) && k % 4 == 3 ==> plain[k] == 255
                && inv[k] == 255
            &&& line_covers(font, cw, li, text, s.len() as int, k) && k % 4 != 3 ==> inv[k] == 255
                - plain[k]
        }),
{
}

/// Filling the background and then drawing a line is idempotent: running
/// the two steps a second time with identical inputs leaves the canvas
/// byte-identical to the first result.
pub proof fn lemma_fill_draw_idempotent(
    s: Seq<u8>,
    color: u32,
    font: Font,
    cw: int,
    li: int,
    text: Seq<char>,
    hl: bool,
)
    requires
        font.wf(),
    ensures
        draw_line_spec(fill_spec(draw_line_spec(fill_spec(s, color), font, cw, li, text, hl), color), font, cw, li, text, hl)
            == draw_line_spec(fill_spec(s, color), font, cw, li, text, hl),
{
    let once = draw_line_spec(fill_spec(s, color), font, cw, li, text, hl);
    let sl = s.len() as int;
    assert(fill_spec(once, color) =~= fill_spec(s, color)) by {
        assert forall|k: int| 0 <= k < sl implies fill_spec(once, color)[k] == fill_spec(s, color)[k]
            by {
            if k >= 4 * (sl / 4) {
                if line_covers(font, cw, li, text, sl, k) {
                    lemma_covered_in_filled(font, cw, li, text, sl, k);
                }
                assert(once[k] == fill_spec(s, color)[k]);
            }
        }
    }
    assert(draw_line_spec(fill_spec(once, color), font, cw, li, text, hl) == draw_line_spec(
        fill_spec(s, color),
        font,
        cw,
        li,
        text,
        hl,
    ));
}

} // verus!
