//! The drawing front end: holds the font and the lines to show, and
//! renders one frame into a caller-owned canvas.

use vstd::prelude::*;
use crate::fonts::Font;
use crate::raster;

verus! {

/// The opaque black background color, as a 32-bit ARGB value.
pub const BACKGROUND: u32 = 0xff000000;

/// One line of text to render, with its highlight state.
pub struct Line {
    pub text: String,
    pub highlighted: bool,
}

/// Renders its lines of text with its font into a pixel buffer.
pub struct App {
    pub font: Font,
    pub lines: Vec<Line>,
}

/// The canvas after the background fill and the first `nl` lines have
/// been drawn, in order.
pub open spec fn draw_upto(s: Seq<u8>, font: Font, lines: Seq<Line>, cw: int, nl: int) -> Seq<u8>
    decreases nl,
{
    if nl <= 0 {
        raster::fill_spec(s, BACKGROUND)
    } else {
        raster::draw_line_spec(
            draw_upto(s, font, lines, cw, nl - 1),
            font,
            cw,
            nl - 1,
            lines[nl - 1].text@,
            lines[nl - 1].highlighted,
        )
    }
}

/// How many lines a frame shows: every stored line, capped by how many
/// glyph rows of `font` fit in `height` pixel rows.
pub open spec fn spec_line_count(font: Font, lines: Seq<Line>, height: int) -> int {
    let fit = height / (font.height as int);
    if lines.len() <= fit {
        lines.len() as int
    } else {
        fit
    }
}

impl App {
    pub fn new(font: Font, lines: Vec<Line>) -> (r: App)
        ensures
            r.font == font,
            r.lines == lines,
    {
        App { font, lines }
    }

    /// Renders one frame: fills the canvas with the opaque black
    /// background, then draws each stored line into its band, top to
    /// bottom, as many lines as fit in `height` pixel rows.  All writes
    /// stay inside the supplied buffer whatever `width` and `height` say.
    #[verifier::loop_isolation(false)]
    pub fn draw(&self, canvas: &mut Vec<u8>, width: u32, height: u32)
        requires
            self.font.wf(),
        ensures
            final(canvas)@ == draw_upto(
                old(canvas)@,
                self.font,
                self.lines@,
                width as int,
                spec_line_count(self.font, self.lines@, height as int),
            ),
    {
        let ghost orig = canvas@;
        let fit = (height as usize) / self.font.height;
        let count = if self.lines.len() <= fit {
            self.lines.len()
        } else {
            fit
        };
        raster::fill_background(canvas, BACKGROUND);
        let mut li: usize = 0;
        while li < count
            invariant
                li <= count,
                canvas@ == draw_upto(orig, self.font, self.lines@, width as int, li as int),
            decreases count - li,
        {
            let line = &self.lines[li];
            raster::draw_line(canvas, width as usize, &self.font, li, line.text.as_str(), line.highlighted);
            li = li + 1;
        }
    }
}

} // verus!

