//! The font: a fixed grid of glyphs resampled to one target cell size,
//! with character lookup over the printable ASCII range.

use vstd::prelude::*;
use crate::atlas;
use crate::atlas::AtlasError;
use crate::pbm;
use crate::pbm::DecodeError;
use crate::resample;
use crate::resample::ResizeError;

verus! {

/// Why building a font failed: the failing stage carries its own error.
#[derive(Debug, PartialEq, Eq, Structural, Clone, Copy)]
pub enum FontError {
    Decode(DecodeError),
    Atlas(AtlasError),
    Resize(ResizeError),
}

/// A bitmap font: 96 grayscale glyphs, one per character in `' '..='~'`,
/// each `width` by `height` pixels, stored flat at index
/// `((code >> 5) - 1) * 32 + (code & 0x1f)`, which is `code - 0x20`.
#[derive(Debug)]
pub struct Font {
    pub width: usize,
    pub height: usize,
    pub glyphs: Vec<Vec<u8>>,
}

impl Font {
    /// A font has positive cell dimensions and 96 complete glyphs.
    pub open spec fn wf(&self) -> bool {
        &&& self.width >= 1
        &&& self.height >= 1
        &&& self.glyphs@.len() == 96
        &&& forall|k: int|
            0 <= k < 96 ==> (#[trigger] self.glyphs@[k])@.len() == self.width * self.height
    }

    /// The glyph that `from_pbm` builds for grid slot `k` of an atlas
    /// decoded from `s`, at target size `font_size / 2` by `font_size`.
    pub open spec fn built_glyph(s: Seq<u8>, font_size: int, k: int) -> Seq<u8> {
        atlas::cell_seq(
            pbm::decoded_pixels(s),
            pbm::spec_width(s),
            pbm::spec_width(s) / 32,
            pbm::spec_height(s) / 3,
            k / 32,
            k % 32,
        )
    }

    /// Parses a packed monochrome image, returning its width, height and
    /// unpacked pixels; see `pbm::decode` for the exact format.
    pub fn parse_pbm(bytes: &[u8]) -> (r: Result<(usize, usize, Vec<u8>), DecodeError>)
        ensures
            match r {
                Ok((w, h, pix)) => {
                    &&& pbm::pbm_ok(bytes@)
                    &&& w == pbm::spec_width(bytes@)
                    &&& h == pbm::spec_height(bytes@)
                    &&& pix@ == pbm::decoded_pixels(bytes@)
                    &&& pix@.len() == w * h
                },
                Err(e) => pbm::decode_result_ok(bytes@, Err(e)),
            },
    {
        match pbm::decode(bytes) {
            Ok(bm) => Ok((bm.width, bm.height, bm.pixels)),
            Err(e) => Err(e),
        }
    }

    /// Builds a font from a packed monochrome atlas image.
    ///
    /// The atlas is decoded, cut into the 3-by-32 glyph grid, and every
    /// cell is resampled to `font_size / 2` by `font_size` pixels with the
    /// triangular filter.  Each stage's failure is carried in the matching
    /// `FontError` variant; a `font_size` below 2 gives a degenerate
    /// target cell and fails rather than building empty glyphs.
    #[verifier::loop_isolation(false)]
    pub fn from_pbm(bytes: &[u8], font_size: usize) -> (r: Result<Font, FontError>)
        ensures
            ({
                let s = bytes@;
                match r {
                    Ok(f) => {
                        &&& pbm::pbm_ok(s)
                        &&& pbm::spec_width(s) % 32 == 0
                        &&& pbm::spec_height(s) % 3 == 0
                        &&& font_size >= 2
                        &&& f.wf()
                        &&& f.width == font_size / 2
                        &&& f.height == font_size
                        &&& forall|k: int|
                            0 <= k < 96 ==> (#[trigger] f.glyphs@[k])@
                                == resample::triangle_resampled(
                                Self::built_glyph(s, font_size as int, k),
                                pbm::spec_width(s) / 32,
                                pbm::spec_height(s) / 3,
                                (font_size / 2) as int,
                                font_size as int,
                            )
                    },
                    Err(FontError::Decode(e)) => pbm::decode_result_ok(s, Err(e)),
                    Err(FontError::Atlas(AtlasError::InvalidWidth(w))) => {
                        &&& pbm::pbm_ok(s)
                        &&& w == pbm::spec_width(s)
                        &&& w % 32 != 0
                    },
                    Err(FontError::Atlas(AtlasError::InvalidHeight(h))) => {
                        &&& pbm::pbm_ok(s)
                        &&& pbm::spec_width(s) % 32 == 0
                        &&& h == pbm::spec_height(s)
                        &&& h % 3 != 0
                    },
                    Err(FontError::Resize(ResizeError::DegenerateTarget)) => {
                        &&& pbm::pbm_ok(s)
                        &&& pbm::spec_width(s) % 32 == 0
                        &&& pbm::spec_height(s) % 3 == 0
                        &&& font_size < 2
                    },
                    Err(FontError::Resize(ResizeError::Filter)) => {
                        &&& pbm::pbm_ok(s)
                        &&& pbm::spec_width(s) % 32 == 0
                        &&& pbm::spec_height(s) % 3 == 0
                        &&& font_size >= 2
                    },
                }
            }),
    {
        let bm = match pbm::decode(bytes) {
            Ok(b) => b,
            Err(e) => {
                return Err(FontError::Decode(e));
            },
        };
        let grid = match atlas::slice(&bm) {
            Ok(a) => a,
            Err(e) => {
                return Err(FontError::Atlas(e));
            },
        };
        let gw = font_size / 2;
        let gh = font_size;
        if gw == 0 || gh == 0 {
            return Err(FontError::Resize(ResizeError::DegenerateTarget));
        }
        if gw > usize::MAX / gh {
            // The target cell could not even be allocated; report it as a
            // filter failure, as the resampler itself would.
            return Err(FontError::Resize(ResizeError::Filter));
        }
        proof {
            assert(gw * gh <= usize::MAX) by (nonlinear_arith)
                requires
                    gh >= 1,
                    gw <= usize::MAX / gh,
            ;
        }
        let mut glyphs: Vec<Vec<u8>> = Vec::new();
        let mut k: usize = 0;
        while k < 96
            invariant
                grid.wf(),
                gw >= 1,
                gh >= 1,
                gw * gh <= usize::MAX,
                k <= 96,
                glyphs@.len() == k,
                forall|m: int|
                    0 <= m < k ==> (#[trigger] glyphs@[m])@ == resample::triangle_resampled(
                        grid.cells@[m]@,
                        grid.cell_width as int,
                        grid.cell_height as int,
                        gw as int,
                        gh as int,
                    ),
                forall|m: int|
                    0 <= m < k ==> (#[trigger] glyphs@[m])@.len() == gw * gh,
            decreases 96 - k,
        {
            let cell = &grid.cells[k];
            match resample::triangle_resize(cell, grid.cell_width, grid.cell_height, gw, gh) {
                Ok(g) => {
                    glyphs.push(g);
                },
                Err(_) => {
                    return Err(FontError::Resize(ResizeError::Filter));
                },
            }
            k = k + 1;
        }
        Ok(Font { width: gw, height: gh, glyphs })
    }

    /// Looks a character's glyph up.
    ///
    /// Returns the glyph for every character in `' '..='~'` and nothing
    /// for every character outside that range; a returned glyph always
    /// holds exactly `width * height` pixels.
    pub fn get_glyph(&self, symbol: char) -> (r: Option<&Vec<u8>>)
        requires
            self.wf(),
        ensures
            match r {
                Some(g) => {
                    &&& 0x20 <= (symbol as u32) <= 0x7e
                    &&& g@ == self.glyphs@[(symbol as u32) as int - 0x20]@
                    &&& g@.len() == self.width * self.height
                },
                None => (symbol as u32) < 0x20 || (symbol as u32) > 0x7e,
            },
    {
        let code = symbol as u32;
        if code < 0x20 || code > 0x7e {
            return None;
        }
        proof {
            assert(((code >> 5) - 1) * 32 + (code & 0x1f) == code - 0x20 && code >> 5 >= 1 && (code
                & 0x1f) < 32 && (code >> 5) <= 3) by (bit_vector)
                requires
                    0x20 <= code <= 0x7e,
            ;
        }
        let row = ((code >> 5) - 1) as usize;
        let col = (code & 0x1f) as usize;
        Some(&self.glyphs[row * 32 + col])
    }
}

} // verus!
