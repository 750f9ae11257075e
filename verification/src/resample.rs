//! Rescales a glyph cell to the configured target size with the resize
//! crate's triangular (linear) filter.

use vstd::prelude::*;

verus! {

/// Why resampling a glyph failed.
#[derive(Debug, PartialEq, Eq, Structural, Clone, Copy)]
pub enum ResizeError {
    /// The requested target cell size has a zero dimension.
    DegenerateTarget,
    /// The resampling filter could not be built or run.
    Filter,
}

/// The error type of the resize crate, carried opaquely out of the
/// trusted wrapper below.
#[verifier::external_type_specification]
#[verifier::external_body]
pub struct ExResizeError(resize::Error);

/// The grayscale image that the resize crate's triangular filter produces
/// from `src` (a `src_w` by `src_h` image), for a `dst_w` by `dst_h`
/// target.  The filter is a fixed numeric computation, so the result is a
/// function of the source pixels and the four dimensions alone.
pub uninterp spec fn triangle_resampled(
    src: Seq<u8>,
    src_w: int,
    src_h: int,
    dst_w: int,
    dst_h: int,
) -> Seq<u8>;

/// Relies on `resize::new` and `resize::Resizer::resize` (resize crate,
/// `Pixel::Gray8`, `Type::Triangle`): `new` rejects any zero dimension and
/// otherwise only fails on allocation; `resize` fills every pixel of a
/// `dst_w * dst_h` destination with the triangle-filtered resampling of the
/// source, a deterministic function of the arguments.
#[verifier::external_body]
pub(crate) fn triangle_resize(
    src: &Vec<u8>,
    src_w: usize,
    src_h: usize,
    dst_w: usize,
    dst_h: usize,
) -> (r: Result<Vec<u8>, resize::Error>)
    requires
        src@.len() == src_w * src_h,
        dst_w * dst_h <= usize::MAX,
    ensures
        match r {
            Ok(d) => {
                &&& src_w >= 1 && src_h >= 1 && dst_w >= 1 && dst_h >= 1
                &&& d@.len() == dst_w * dst_h
                &&& d@ == triangle_resampled(
                    src@,
                    src_w as int,
                    src_h as int,
                    dst_w as int,
                    dst_h as int,
                )
            },
            Err(_) => true,
        },
{
    let mut resizer = resize::new(
        src_w,
        src_h,
        dst_w,
        dst_h,
        resize::Pixel::Gray8,
        resize::Type::Triangle,
    )?;
    let gray_src: Vec<resize::px::Gray<u8>> = src.iter().map(|v| resize::px::Gray::new(*v)).collect();
    let mut gray_dst: Vec<resize::px::Gray<u8>> = vec![resize::px::Gray::new(0); dst_w * dst_h];
    resizer.resize(&gray_src, &mut gray_dst)?;
    Ok(gray_dst.iter().map(|g| g.value()).collect())
}

} // verus!
