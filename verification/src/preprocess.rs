//! Integer geometry of model preprocessing: letterbox placement, source
//! sample addressing, and the planar (NCHW) layout of the model input.
//!
//! The resampling arithmetic itself works on floating-point weights and is
//! not part of this module; what is here decides where samples are read from
//! and written to, and keeps every access inside its buffer.

use vstd::prelude::*;
use crate::image::{
    ImageRef, PixelFormat, lemma_rgb_offsets_within_pixel, required_len, spec_bytes_per_pixel,
    spec_rgb_offsets,
};

verus! {

/// How to handle aspect ratio mismatch during resize.
#[derive(Debug, Clone, Copy, PartialEq, Eq, Structural)]
pub enum ResizeMode {
    /// Aspect-preserving resize, centered with padding.
    /// Returns the letterbox metadata for coordinate reversal.
    Letterbox,
    /// Stretch to fill the target dimensions.
    Stretch,
}

/// Padding before content of extent `resized` centred in `target`: half the
/// slack, rounded down.
pub fn letterbox_padding(target: usize, resized: usize) -> (pad: usize)
    requires
        resized <= target,
    ensures
        pad == (target - resized) / 2,
        pad + resized <= target,
        target - resized - 2 * pad <= 1,
{
    (target - resized) / 2
}

/// The index after `i` along an axis of `n` samples, held at the last sample.
pub fn next_sample_index(i: usize, n: usize) -> (j: usize)
    requires
        i < n,
    ensures
        j < n,
        j == if i + 1 < n { i + 1 } else { (n - 1) as int },
{
    if i + 1 < n {
        i + 1
    } else {
        n - 1
    }
}

/// Byte offset of the first sample of pixel `(x, y)` in a row-major buffer.
pub open spec fn spec_pixel_offset(width: u32, format: PixelFormat, x: int, y: int) -> int {
    (y * width as int + x) * spec_bytes_per_pixel(format) as int
}

proof fn lemma_pixel_in_buffer(width: u32, height: u32, bpp: int, x: int, y: int)
    requires
        0 <= x < width,
        0 <= y < height,
        1 <= bpp,
    ensures
        (y * width + x) * bpp + bpp <= width as int * height as int * bpp,
        0 <= (y * width + x) * bpp,
        y * width <= y * width + x <= (y * width + x) * bpp,
{
    assert(y * width + x <= (y * width + x) * bpp) by (nonlinear_arith)
        requires
            0 <= x,
            0 <= y,
            0 <= width,
            1 <= bpp,
    ;
    assert(y * width + x + 1 <= width as int * height as int) by (nonlinear_arith)
        requires
            0 <= x < width,
            0 <= y < height,
    ;
    assert((y * width + x) * bpp + bpp == (y * width + x + 1) * bpp) by (nonlinear_arith);
    assert((y * width + x + 1) * bpp <= width as int * height as int * bpp) by (nonlinear_arith)
        requires
            y * width + x + 1 <= width as int * height as int,
            1 <= bpp,
    ;
    assert(0 <= (y * width + x) * bpp) by (nonlinear_arith)
        requires
            0 <= x,
            0 <= y,
            0 <= width,
            1 <= bpp,
    ;
}

/// Byte offset of the first sample of pixel `(x, y)` of a complete image.
/// All of the pixel's samples lie inside the buffer.
pub fn pixel_offset(image: &ImageRef, x: usize, y: usize) -> (off: usize)
    requires
        image.is_complete(),
        x < image.width,
        y < image.height,
    ensures
        off == spec_pixel_offset(image.width, image.format, x as int, y as int),
        off + spec_bytes_per_pixel(image.format) <= image.pixels@.len(),
{
    let bpp = image.format.bytes_per_pixel();
    let _len = image.pixels.len();
    proof {
        lemma_pixel_in_buffer(image.width, image.height, bpp as int, x as int, y as int);
        assert(required_len(image.width, image.height, image.format) == image.width as int
            * image.height as int * bpp as int);
    }
    let row: usize = y * (image.width as usize);
    (row + x) * bpp
}

/// Resampling reads inside the source buffer: for a complete image, every
/// color sample of every pixel lies at an index below the buffer length.
pub proof fn lemma_samples_within_buffer<'a>(image: ImageRef<'a>, x: int, y: int)
    requires
        image.is_complete(),
        0 <= x < image.width,
        0 <= y < image.height,
    ensures
        0 <= spec_pixel_offset(image.width, image.format, x, y),
        spec_pixel_offset(image.width, image.format, x, y) + spec_rgb_offsets(image.format).0
            < image.pixels@.len(),
        spec_pixel_offset(image.width, image.format, x, y) + spec_rgb_offsets(image.format).1
            < image.pixels@.len(),
        spec_pixel_offset(image.width, image.format, x, y) + spec_rgb_offsets(image.format).2
            < image.pixels@.len(),
{
    let bpp = spec_bytes_per_pixel(image.format) as int;
    lemma_pixel_in_buffer(image.width, image.height, bpp, x, y);
    lemma_rgb_offsets_within_pixel(image.format);
}

/// Offsets of the three channel values of output pixel `(x, y)` in a planar
/// `3 x height x width` buffer: `c * width * height + y * width + x` for
/// channels `c = 0, 1, 2`.
pub fn nchw_offsets(x: usize, y: usize, width: usize, height: usize) -> (offs: (usize, usize, usize))
    requires
        x < width,
        y < height,
        3 * width * height <= usize::MAX,
    ensures
        offs.0 == y * width + x,
        offs.1 == width * height + y * width + x,
        offs.2 == 2 * width * height + y * width + x,
        offs.2 < 3 * width * height,
{
    proof {
        assert(y * width + x < width * height) by (nonlinear_arith)
            requires
                x < width,
                y < height,
        ;
        assert(3 * width * height == 3 * (width * height)) by (nonlinear_arith);
        assert(2 * width * height == 2 * (width * height)) by (nonlinear_arith);
    }
    let plane = width * height;
    let idx = y * width + x;
    (idx, plane + idx, 2 * plane + idx)
}

/// Distinct output positions never share a slot of the planar buffer.
pub proof fn lemma_nchw_injective(
    c1: int,
    y1: int,
    x1: int,
    c2: int,
    y2: int,
    x2: int,
    width: int,
    height: int,
)
    requires
        0 <= c1 < 3,
        0 <= c2 < 3,
        0 <= x1 < width,
        0 <= x2 < width,
        0 <= y1 < height,
        0 <= y2 < height,
        c1 * width * height + y1 * width + x1 == c2 * width * height + y2 * width + x2,
    ensures
        c1 == c2,
        y1 == y2,
        x1 == x2,
{
    let p = width * height;
    assert(0 <= y1 * width + x1 < p) by (nonlinear_arith)
        requires
            0 <= x1 < width,
            0 <= y1 < height,
            p == width * height,
    ;
    assert(0 <= y2 * width + x2 < p) by (nonlinear_arith)
        requires
            0 <= x2 < width,
            0 <= y2 < height,
            p == width * height,
    ;
    assert(c1 * width * height == c1 * p) by (nonlinear_arith)
        requires
            p == width * height,
    ;
    assert(c2 * width * height == c2 * p) by (nonlinear_arith)
        requires
            p == width * height,
    ;
    assert(c1 == c2) by (nonlinear_arith)
        requires
            c1 * p + (y1 * width + x1) == c2 * p + (y2 * width + x2),
            0 <= y1 * width + x1 < p,
            0 <= y2 * width + x2 < p,
            0 <= c1 < 3,
            0 <= c2 < 3,
    ;
    assert(y1 == y2) by (nonlinear_arith)
        requires
            y1 * width + x1 == y2 * width + x2,
            0 <= x1 < width,
            0 <= x2 < width,
            0 <= y1,
            0 <= y2,
    ;
}

} // verus!
