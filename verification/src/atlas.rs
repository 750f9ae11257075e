//! Slices a decoded bitmap into the fixed 32-column by 3-row glyph grid.
//!
//! The atlas covers the printable ASCII range `' '..='~'`: character code
//! `c` maps to grid row `(c >> 5) - 1` and column `c & 0x1f`, and the grid
//! is stored flat, cell `(row, col)` at index `row * 32 + col`.

use vstd::prelude::*;
use crate::pbm::RawBitmap;

verus! {

/// Why slicing a bitmap into the glyph grid failed.
#[derive(Debug, PartialEq, Eq, Structural, Clone, Copy)]
pub enum AtlasError {
    /// The bitmap width (carried here) is not divisible by 32.
    InvalidWidth(usize),
    /// The bitmap height (carried here) is not divisible by 3.
    InvalidHeight(usize),
}

/// The pixels of grid cell `(row, col)` of a `img_w`-wide bitmap whose
/// cells are `cw` by `ch` pixels, row-major within the cell.
pub open spec fn cell_seq(pix: Seq<u8>, img_w: int, cw: int, ch: int, row: int, col: int) -> Seq<
    u8,
> {
    Seq::new((cw * ch) as nat, |k: int| pix[(row * ch + k / cw) * img_w + col * cw + k % cw])
}

/// The 96-cell glyph grid cut from one bitmap, all cells sharing one
/// native size.
pub struct GlyphAtlas {
    pub cell_width: usize,
    pub cell_height: usize,
    pub cells: Vec<Vec<u8>>,
}

impl GlyphAtlas {
    /// 96 cells, each holding exactly one cell's worth of pixels.
    pub open spec fn wf(&self) -> bool {
        &&& self.cells@.len() == 96
        &&& forall|k: int|
            0 <= k < 96 ==> (#[trigger] self.cells@[k])@.len() == self.cell_width
                * self.cell_height
    }
}

/// Copies grid cell `(row, col)` out of the bitmap.
#[verifier::loop_isolation(false)]
fn extract_cell(bm: &RawBitmap, row: usize, col: usize) -> (r: Vec<u8>)
    requires
        bm.wf(),
        bm.width % 32 == 0,
        bm.height % 3 == 0,
        row < 3,
        col < 32,
    ensures
        r@ == cell_seq(
            bm.pixels@,
            bm.width as int,
            (bm.width / 32) as int,
            (bm.height / 3) as int,
            row as int,
            col as int,
        ),
{
    let cw = bm.width / 32;
    let ch = bm.height / 3;
    let total = bm.pixels.len();
    let ghost target = cell_seq(bm.pixels@, bm.width as int, cw as int, ch as int, row as int, col as int);
    proof {
        assert(total == bm.width * bm.height);
        assert(cw * ch <= bm.width * bm.height && row * ch + ch <= bm.height && col * cw + cw
            <= bm.width) by (nonlinear_arith)
            requires
                cw == bm.width / 32,
                ch == bm.height / 3,
                bm.width % 32 == 0,
                bm.height % 3 == 0,
                row < 3,
                col < 32,
        ;
    }
    let mut out: Vec<u8> = Vec::new();
    let mut j: usize = 0;
    while j < ch
        invariant
            bm.wf(),
            cw == bm.width / 32,
            ch == bm.height / 3,
            row * ch + ch <= bm.height,
            col * cw + cw <= bm.width,
            j <= ch,
            out@.len() == j * cw,
            target == cell_seq(
                bm.pixels@,
                bm.width as int,
                cw as int,
                ch as int,
                row as int,
                col as int,
            ),
            target.len() == cw * ch,
            forall|k: int| 0 <= k < j * cw ==> out@[k] == target[k],
        decreases ch - j,
    {
        proof {
            assert(row * ch + j + 1 <= bm.height && (row * ch + j) * bm.width + col * cw + cw
                <= bm.width * bm.height) by (nonlinear_arith)
                requires
                    row * ch + ch <= bm.height,
                    j < ch,
                    col * cw + cw <= bm.width,
                    cw <= bm.width,
                    0 <= row,
                    0 <= col,
                    0 <= bm.width,
            ;
        }
        let row_base: usize = (row * ch + j) * bm.width + col * cw;
        let mut i: usize = 0;
        while i < cw
            invariant
                bm.wf(),
                i <= cw,
                j < ch,
                row_base == (row * ch + j) * bm.width + col * cw,
                row_base + cw <= bm.width * bm.height,
                out@.len() == j * cw + i,
                target.len() == cw * ch,
                forall|k: int| 0 <= k < j * cw + i ==> out@[k] == target[k],
                forall|k: int|
                    0 <= k < target.len() ==> target[k] == bm.pixels@[(row * ch + k / (cw as int))
                        * bm.width + col * cw + k % (cw as int)],
            decreases cw - i,
        {
            let px = bm.pixels[row_base + i];
            out.push(px);
            proof {
                let k: int = j as int * (cw as int) + i as int;
                assert(k / (cw as int) == j as int && k % (cw as int) == i as int) by {
                    vstd::arithmetic::div_mod::lemma_fundamental_div_mod_converse(
                        k,
                        cw as int,
                        j as int,
                        i as int,
                    );
                }
                assert(0 <= k < target.len()) by (nonlinear_arith)
                    requires
                        k == j as int * (cw as int) + i as int,
                        target.len() == cw * ch,
                        0 <= (i as int) < cw as int,
                        0 <= (j as int) < ch as int,
                ;
                assert(target[k] == bm.pixels@[(row * ch + j) * bm.width + col * cw + i]);
                assert(out@[k] == px);
            }
            i = i + 1;
        }
        j = j + 1;
        assert(out@.len() == j * cw) by (nonlinear_arith)
            requires
                out@.len() == (j - 1) * cw + cw,
        ;
    }
    proof {
        assert(out@.len() == ch * cw == target.len()) by (nonlinear_arith)
            requires
                out@.len() == ch * cw,
                target.len() == cw * ch,
        ;
        assert(out@ =~= target);
    }
    out
}

/// Cuts the bitmap into the fixed 3-by-32 glyph grid.
///
/// Succeeds exactly when the width divides into 32 columns and the height
/// into 3 rows; the offending dimension is carried in the error otherwise.
/// Cell `(row, col)` of the result holds the pixels of the rectangle at
/// `(col * cell_width, row * cell_height)`, at flat index `row * 32 + col`.
pub fn slice(bm: &RawBitmap) -> (r: Result<GlyphAtlas, AtlasError>)
    requires
        bm.wf(),
    ensures
        match r {
            Ok(a) => {
                &&& bm.width % 32 == 0
                &&& bm.height % 3 == 0
                &&& a.wf()
                &&& a.cell_width == bm.width / 32
                &&& a.cell_height == bm.height / 3
                &&& forall|k: int|
                    0 <= k < 96 ==> (#[trigger] a.cells@[k])@ == cell_seq(
                        bm.pixels@,
                        bm.width as int,
                        (bm.width / 32) as int,
                        (bm.height / 3) as int,
                        k / 32,
                        k % 32,
                    )
            },
            Err(AtlasError::InvalidWidth(w)) => w == bm.width && bm.width % 32 != 0,
            Err(AtlasError::InvalidHeight(h)) => h == bm.height && bm.width % 32 == 0
                && bm.height % 3 != 0,
        },
{
    if bm.width % 32 != 0 {
        return Err(AtlasError::InvalidWidth(bm.width));
    }
    if bm.height % 3 != 0 {
        return Err(AtlasError::InvalidHeight(bm.height));
    }
    let cw = bm.width / 32;
    let ch = bm.height / 3;
    let mut cells: Vec<Vec<u8>> = Vec::new();
    let mut k: usize = 0;
    while k < 96
        invariant
            bm.wf(),
            bm.width % 32 == 0,
            bm.height % 3 == 0,
            cw == bm.width / 32,
            ch == bm.height / 3,
            k <= 96,
            cells@.len() == k,
            forall|m: int|
                0 <= m < k ==> (#[trigger] cells@[m])@ == cell_seq(
                    bm.pixels@,
                    bm.width as int,
                    cw as int,
                    ch as int,
                    m / 32,
                    m % 32,
                ),
        decreases 96 - k,
    {
        let cell = extract_cell(bm, k / 32, k % 32);
        cells.push(cell);
        k = k + 1;
    }
    Ok(GlyphAtlas { cell_width: cw, cell_height: ch, cells })
}

} // verus!
