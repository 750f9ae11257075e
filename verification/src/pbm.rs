//! Decoder for the packed monochrome bitmap format that holds the font atlas.
//!
//! The input starts with the two-byte magic token `P4`; lines beginning with
//! `#` are comments and are skipped.  The first content line after the magic
//! holds the image width and height as two space-separated decimal numbers.
//! The rest of the byte stream is a bit-packed bitmap: each byte expands,
//! most significant bit first, into 8 pixel samples, a set bit giving
//! intensity 255 and a clear bit intensity 0.  Bits form one continuous
//! stream across row boundaries: no row padding is inserted, so rows align
//! to byte boundaries only when the width is a multiple of 8.

use vstd::prelude::*;

verus! {

/// Why decoding a packed bitmap failed.
#[derive(Debug, PartialEq, Eq, Structural, Clone, Copy)]
pub enum DecodeError {
    /// The first content line is not the magic token `P4`.
    BadMagic,
    /// The dimension line does not hold exactly two positive decimal numbers.
    BadDimensions,
    /// The packed stream holds fewer bits than `width * height`.
    Truncated,
}

/// A decoded monochrome bitmap: row-major, one byte per pixel, each pixel
/// either 0 or 255.
pub struct RawBitmap {
    pub width: usize,
    pub height: usize,
    pub pixels: Vec<u8>,
}

impl RawBitmap {
    /// The bitmap holds exactly `width * height` pixels, each 0 or 255.
    pub open spec fn wf(&self) -> bool {
        &&& self.pixels@.len() == self.width * self.height
        &&& forall|i: int|
            0 <= i < self.pixels@.len() ==> (#[trigger] self.pixels@[i] == 0 || self.pixels@[i]
                == 255)
    }
}

/// Index of the first line feed at or after `p`, or the length of `s` if
/// none follows.
pub open spec fn line_end(s: Seq<u8>, p: int) -> int
    decreases s.len() - p,
{
    if p < 0 {
        0
    } else if p >= s.len() {
        s.len() as int
    } else if s[p] == 10u8 {
        p
    } else {
        line_end(s, p + 1)
    }
}

/// Start of the first content (non-comment) line segment at or after `p`,
/// where line segments are what splitting at line feeds yields.  Returns
/// `s.len() + 1` when a comment line runs to the end of the input without a
/// terminating line feed, so that no further segment exists.
pub open spec fn skip_comments(s: Seq<u8>, p: int) -> int
    decreases s.len() - p, 1int,
{
    if 0 <= p < s.len() && s[p] == 35u8 {
        skip_comment_tail(s, p)
    } else {
        p
    }
}

/// Scans past the remainder of a comment line starting inside it at `p`.
pub open spec fn skip_comment_tail(s: Seq<u8>, p: int) -> int
    decreases s.len() - p, 0int,
{
    if p < 0 {
        0
    } else if p >= s.len() {
        s.len() as int + 1
    } else if s[p] == 10u8 {
        skip_comments(s, p + 1)
    } else {
        skip_comment_tail(s, p + 1)
    }
}

/// The first content line is exactly the two bytes `P4`.
pub open spec fn magic_ok(s: Seq<u8>) -> bool {
    let l0 = skip_comments(s, 0);
    &&& l0 + 2 <= s.len()
    &&& line_end(s, l0) == l0 + 2
    &&& s[l0] == 80u8
    &&& s[l0 + 1] == 52u8
}

/// Start of the dimension line: the first content line after the magic
/// line, or `s.len() + 1` when none exists.
pub open spec fn dims_start(s: Seq<u8>) -> int {
    let e0 = line_end(s, skip_comments(s, 0));
    if e0 < s.len() {
        skip_comments(s, e0 + 1)
    } else {
        s.len() as int + 1
    }
}

/// Index of the first space at or after `p` and before `e`, or `e` if none.
pub open spec fn space_end(s: Seq<u8>, p: int, e: int) -> int
    decreases e - p,
{
    if p < 0 || p >= e {
        e
    } else if s[p] == 32u8 {
        p
    } else {
        space_end(s, p + 1, e)
    }
}

/// Every byte of `s` is a decimal digit.
pub open spec fn all_digits(s: Seq<u8>) -> bool {
    forall|i: int| 0 <= i < s.len() ==> 48 <= #[trigger] s[i] <= 57
}

/// The value of `s` read as a decimal numeral.
pub open spec fn dec_val(s: Seq<u8>) -> int
    decreases s.len(),
{
    if s.len() == 0 {
        0
    } else {
        dec_val(s.drop_last()) * 10 + (s.last() - 48)
    }
}

/// A dimension field: a non-empty run of digits whose value is positive and
/// representable in a `usize`.
pub open spec fn is_dim_field(s: Seq<u8>) -> bool {
    &&& s.len() > 0
    &&& all_digits(s)
    &&& 1 <= dec_val(s) <= usize::MAX
}

/// The dimension line exists and splits at a single space into two
/// dimension fields.
pub open spec fn dims_ok(s: Seq<u8>) -> bool {
    let p = dims_start(s);
    let e = line_end(s, p);
    let sp = space_end(s, p, e);
    &&& p <= s.len()
    &&& sp < e
    &&& space_end(s, sp + 1, e) == e
    &&& is_dim_field(s.subrange(p, sp))
    &&& is_dim_field(s.subrange(sp + 1, e))
}

/// The decoded image width.
pub open spec fn spec_width(s: Seq<u8>) -> int {
    let p = dims_start(s);
    let e = line_end(s, p);
    dec_val(s.subrange(p, space_end(s, p, e)))
}

/// The decoded image height.
pub open spec fn spec_height(s: Seq<u8>) -> int {
    let p = dims_start(s);
    let e = line_end(s, p);
    dec_val(s.subrange(space_end(s, p, e) + 1, e))
}

/// The packed pixel bytes: everything after the line feed that closes the
/// dimension line.
pub open spec fn rest_of(s: Seq<u8>) -> Seq<u8> {
    let e = line_end(s, dims_start(s));
    if e + 1 <= s.len() {
        s.subrange(e + 1, s.len() as int)
    } else {
        Seq::empty()
    }
}

/// The header parses and the packed stream holds at least `width * height`
/// bits.
pub open spec fn pbm_ok(s: Seq<u8>) -> bool {
    &&& magic_ok(s)
    &&& dims_ok(s)
    &&& spec_width(s) * spec_height(s) <= 8 * rest_of(s).len()
}

/// The pixel sample for bit `k` (0 = most significant) of packed byte `b`.
pub open spec fn px_of_bit(b: u8, k: int) -> u8 {
    if b & (128u8 >> (k as u8)) != 0 {
        255u8
    } else {
        0u8
    }
}

/// The first `n` pixel samples of the packed stream `data`, most
/// significant bit of each byte first.
pub open spec fn unpacked(data: Seq<u8>, n: int) -> Seq<u8> {
    Seq::new(n as nat, |i: int| px_of_bit(data[i / 8], i % 8))
}

/// The pixel sequence that decoding `s` yields on success.
pub open spec fn decoded_pixels(s: Seq<u8>) -> Seq<u8> {
    unpacked(rest_of(s), spec_width(s) * spec_height(s))
}

/// What `decode` returns for every input: the success case and each error
/// case hold if and only if their stated condition does.
pub open spec fn decode_result_ok(s: Seq<u8>, r: Result<RawBitmap, DecodeError>) -> bool {
    match r {
        Ok(bm) => {
            &&& pbm_ok(s)
            &&& bm.wf()
            &&& bm.width == spec_width(s)
            &&& bm.height == spec_height(s)
            &&& bm.pixels@ == decoded_pixels(s)
        },
        Err(DecodeError::BadMagic) => !magic_ok(s),
        Err(DecodeError::BadDimensions) => magic_ok(s) && !dims_ok(s),
        Err(DecodeError::Truncated) => magic_ok(s) && dims_ok(s) && (spec_width(s) * spec_height(s)
            > 8 * rest_of(s).len() || spec_width(s) * spec_height(s) > usize::MAX),
    }
}

/// Index of the first line feed at or after `start`.
fn find_line_end(bytes: &[u8], start: usize) -> (r: usize)
    requires
        start <= bytes@.len(),
    ensures
        r == line_end(bytes@, start as int),
        start <= r <= bytes@.len(),
        r < bytes@.len() ==> bytes@[r as int] == 10u8,
{
    let n = bytes.len();
    let mut q = start;
    while q < n && bytes[q] != 10
        invariant
            start <= q <= n,
            n == bytes@.len(),
            line_end(bytes@, start as int) == line_end(bytes@, q as int),
        decreases n - q,
    {
        q = q + 1;
    }
    q
}

/// Start of the first content line at or after `start`; `None` when a
/// comment line runs to the end of the input.
fn find_content_line(bytes: &[u8], start: usize) -> (r: Option<usize>)
    requires
        start <= bytes@.len(),
    ensures
        match r {
            Some(p) => p == skip_comments(bytes@, start as int) && start <= p <= bytes@.len(),
            None => skip_comments(bytes@, start as int) == bytes@.len() + 1,
        },
{
    let n = bytes.len();
    let mut p = start;
    loop
        invariant
            start <= p <= n,
            n == bytes@.len(),
            skip_comments(bytes@, start as int) == skip_comments(bytes@, p as int),
        decreases n - p,
    {
        if p < n && bytes[p] == 35 {
            let e = find_line_end(bytes, p);
            proof {
                assert(skip_comments(bytes@, p as int) == skip_comment_tail(bytes@, p as int));
                lemma_comment_tail_stable(bytes@, p as int, e as int);
            }
            if e < n {
                assert(skip_comment_tail(bytes@, e as int) == skip_comments(bytes@, e + 1));
                p = e + 1;
            } else {
                assert(skip_comment_tail(bytes@, e as int) == bytes@.len() + 1);
                return None;
            }
        } else {
            return Some(p);
        }
    }
}

/// `skip_comment_tail` is unchanged while scanning bytes of a comment line
/// that lie before its closing line feed.
proof fn lemma_comment_tail_stable(s: Seq<u8>, p: int, q: int)
    requires
        0 <= p <= q <= line_end(s, p),
    ensures
        skip_comment_tail(s, p) == skip_comment_tail(s, q),
    decreases q - p,
{
    if p < q {
        if p < s.len() {
            assert(s[p] != 10u8);
            lemma_comment_tail_stable(s, p + 1, q);
        }
    }
}

/// The value of a digit prefix never exceeds the value of the whole
/// numeral.
proof fn lemma_dec_val_prefix(s: Seq<u8>, j: int)
    requires
        0 <= j <= s.len(),
        all_digits(s),
    ensures
        dec_val(s.take(j)) <= dec_val(s),
        dec_val(s) >= 0,
    decreases s.len() - j,
{
    if j == s.len() {
        assert(s.take(j) =~= s);
        lemma_dec_val_nonneg(s);
    } else {
        lemma_dec_val_prefix(s, j + 1);
        lemma_dec_val_nonneg(s.take(j));
        assert(s.take(j + 1).drop_last() =~= s.take(j));
        assert(dec_val(s.take(j + 1)) == dec_val(s.take(j)) * 10 + (s[j] - 48));
    }
}

/// A digit numeral has a non-negative value.
proof fn lemma_dec_val_nonneg(s: Seq<u8>)
    requires
        all_digits(s),
    ensures
        dec_val(s) >= 0,
    decreases s.len(),
{
    if s.len() > 0 {
        assert(all_digits(s.drop_last()));
        lemma_dec_val_nonneg(s.drop_last());
    }
}

/// Parses the field `bytes[from..to)` as a positive decimal number that
/// fits a `usize`; `None` exactly when the field is not such a numeral.
fn parse_dim_field(bytes: &[u8], from: usize, to: usize) -> (r: Option<usize>)
    requires
        from <= to <= bytes@.len(),
    ensures
        match r {
            Some(v) => is_dim_field(bytes@.subrange(from as int, to as int)) && v == dec_val(
                bytes@.subrange(from as int, to as int),
            ),
            None => !is_dim_field(bytes@.subrange(from as int, to as int)),
        },
{
    let ghost field = bytes@.subrange(from as int, to as int);
    if from == to {
        return None;
    }
    let mut val: usize = 0;
    let mut q = from;
    while q < to
        invariant
            from <= q <= to <= bytes@.len(),
            field == bytes@.subrange(from as int, to as int),
            all_digits(field.take(q - from)),
            val == dec_val(field.take(q - from)),
        decreases to - q,
    {
        let b = bytes[q];
        if b < 48 || b > 57 {
            assert(field[q - from] == b);
            return None;
        }
        let d = (b - 48) as usize;
        proof {
            assert(field.take(q + 1 - from).drop_last() =~= field.take(q - from));
            assert(field.take(q + 1 - from).last() == b);
        }
        if val > (usize::MAX - d) / 10 {
            proof {
                lemma_dec_val_nonneg(field.take(q + 1 - from));
                assert(val * 10 + d > usize::MAX) by (nonlinear_arith)
                    requires
                        val > (usize::MAX - d) / 10,
                        0 <= d <= 9,
                ;
                if all_digits(field) {
                    lemma_dec_val_prefix(field, q + 1 - from);
                }
            }
            return None;
        }
        val = val * 10 + d;
        q = q + 1;
    }
    proof {
        assert(field.take(to - from) =~= field);
    }
    if val == 0 {
        return None;
    }
    Some(val)
}

/// Decodes a packed monochrome bitmap.
///
/// On success the result holds the stated width and height and exactly
/// `width * height` pixels unpacked most-significant-bit first from the
/// packed stream.  A missing or wrong magic token gives `BadMagic`; a
/// dimension line that is not exactly two positive `usize` numerals split
/// by one space gives `BadDimensions`; a packed stream with fewer than
/// `width * height` bits gives `Truncated` (excess bits are ignored, never
/// an error).
pub fn decode(bytes: &[u8]) -> (r: Result<RawBitmap, DecodeError>)
    ensures
        decode_result_ok(bytes@, r),
{
    let n = bytes.len();
    // Magic line.
    let l0 = match find_content_line(bytes, 0) {
        Some(p) => p,
        None => {
            return Err(DecodeError::BadMagic);
        },
    };
    let e0 = find_line_end(bytes, l0);
    if !(e0 - l0 == 2 && bytes[l0] == 80 && bytes[l0 + 1] == 52) {
        return Err(DecodeError::BadMagic);
    }
    // Dimension line.
    if e0 >= n {
        assert(dims_start(bytes@) == bytes@.len() + 1);
        return Err(DecodeError::BadDimensions);
    }
    let l1 = match find_content_line(bytes, e0 + 1) {
        Some(p) => p,
        None => {
            return Err(DecodeError::BadDimensions);
        },
    };
    let e1 = find_line_end(bytes, l1);
    let sp = find_space(bytes, l1, e1);
    if sp >= e1 {
        return Err(DecodeError::BadDimensions);
    }
    if find_space(bytes, sp + 1, e1) < e1 {
        return Err(DecodeError::BadDimensions);
    }
    let width = match parse_dim_field(bytes, l1, sp) {
        Some(v) => v,
        None => {
            return Err(DecodeError::BadDimensions);
        },
    };
    let height = match parse_dim_field(bytes, sp + 1, e1) {
        Some(v) => v,
        None => {
            return Err(DecodeError::BadDimensions);
        },
    };
    // Packed pixel data.
    let data_start = if e1 < n {
        e1 + 1
    } else {
        n
    };
    let rem = n - data_start;
    proof {
        if e1 < n {
            assert(rest_of(bytes@) =~= bytes@.subrange(e1 + 1, n as int));
        } else {
            assert(rest_of(bytes@) =~= Seq::<u8>::empty());
        }
    }
    // width * height is compared against the 8 * rem available bits without
    // ever computing a product or sum that could overflow a usize.
    if width > usize::MAX / height {
        proof {
            assert(width * height > usize::MAX) by (nonlinear_arith)
                requires
                    height >= 1,
                    width > usize::MAX / height,
            ;
        }
        return Err(DecodeError::Truncated);
    }
    proof {
        assert(width * height <= usize::MAX) by (nonlinear_arith)
            requires
                height >= 1,
                width <= usize::MAX / height,
        ;
    }
    let needed: usize = width * height;
    assert(needed == spec_width(bytes@) * spec_height(bytes@));
    if needed / 8 > rem || (needed / 8 == rem && needed % 8 != 0) {
        assert(needed > 8 * rem);
        return Err(DecodeError::Truncated);
    }
    assert(needed <= 8 * rem);
    let mut pixels: Vec<u8> = Vec::new();
    let mut i: usize = 0;
    while i < needed
        invariant
            needed <= 8 * (n - data_start),
            data_start + (n - data_start) == n <= usize::MAX,
            n == bytes@.len(),
            i <= needed,
            pixels@ =~= unpacked(rest_of(bytes@), needed as int).take(i as int),
            rest_of(bytes@) == bytes@.subrange(data_start as int, n as int),
        decreases needed - i,
    {
        let b = bytes[data_start + i / 8];
        let mask: u8 = 128u8 >> ((i % 8) as u8);
        let px: u8 = if b & mask != 0 {
            255
        } else {
            0
        };
        assert(rest_of(bytes@)[i as int / 8] == b);
        assert(px == px_of_bit(b, i as int % 8));
        pixels.push(px);
        i = i + 1;
    }
    assert(pixels@ =~= decoded_pixels(bytes@));
    let bm = RawBitmap { width, height, pixels };
    assert(bm.wf()) by {
        assert(forall|j: int|
            0 <= j < bm.pixels@.len() ==> (#[trigger] bm.pixels@[j] == 0 || bm.pixels@[j] == 255));
    }
    Ok(bm)
}

/// Index of the first space at or after `from` and before `to`, or `to`.
fn find_space(bytes: &[u8], from: usize, to: usize) -> (r: usize)
    requires
        from <= to <= bytes@.len(),
    ensures
        r == space_end(bytes@, from as int, to as int),
        from <= r <= to,
{
    let mut q = from;
    while q < to && bytes[q] != 32
        invariant
            from <= q <= to <= bytes@.len(),
            space_end(bytes@, from as int, to as int) == space_end(bytes@, q as int, to as int),
        decreases to - q,
    {
        q = q + 1;
    }
    q
}

} // verus!
