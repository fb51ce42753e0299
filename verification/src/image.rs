//! Image descriptions: pixel formats, borrowed image buffers and crop rectangles.

use vstd::prelude::*;

verus! {

/// Pixel format of input image data.
#[derive(Debug, Clone, Copy, PartialEq, Eq, Structural)]
pub enum PixelFormat {
    /// 4 bytes per pixel: blue, green, red, alpha.
    Bgra,
    /// 3 bytes per pixel: red, green, blue.
    Rgb,
    /// 4 bytes per pixel: red, green, blue, alpha.
    Rgba,
}

/// Number of bytes one pixel occupies in a buffer of the given format.
pub open spec fn spec_bytes_per_pixel(format: PixelFormat) -> nat {
    match format {
        PixelFormat::Bgra | PixelFormat::Rgba => 4,
        PixelFormat::Rgb => 3,
    }
}

/// Byte offsets of the red, green and blue samples inside one pixel.
pub open spec fn spec_rgb_offsets(format: PixelFormat) -> (nat, nat, nat) {
    match format {
        PixelFormat::Bgra => (2, 1, 0),
        PixelFormat::Rgba | PixelFormat::Rgb => (0, 1, 2),
    }
}

/// Bytes a `width x height` image of the given format needs.
pub open spec fn required_len(width: u32, height: u32, format: PixelFormat) -> int {
    width as int * height as int * spec_bytes_per_pixel(format) as int
}

impl PixelFormat {
    /// Bytes per pixel for this format.
    pub fn bytes_per_pixel(self) -> (n: usize)
        ensures
            n == spec_bytes_per_pixel(self),
    {
        match self {
            PixelFormat::Bgra | PixelFormat::Rgba => 4,
            PixelFormat::Rgb => 3,
        }
    }

    /// Byte offsets `(red, green, blue)` of the color samples inside one pixel.
    pub fn rgb_offsets(self) -> (offs: (usize, usize, usize))
        ensures
            offs.0 == spec_rgb_offsets(self).0,
            offs.1 == spec_rgb_offsets(self).1,
            offs.2 == spec_rgb_offsets(self).2,
    {
        match self {
            PixelFormat::Bgra => (2, 1, 0),
            PixelFormat::Rgba | PixelFormat::Rgb => (0, 1, 2),
        }
    }
}

/// Each color sample lies inside its pixel, and the three samples are distinct.
pub proof fn lemma_rgb_offsets_within_pixel(format: PixelFormat)
    ensures
        spec_rgb_offsets(format).0 < spec_bytes_per_pixel(format),
        spec_rgb_offsets(format).1 < spec_bytes_per_pixel(format),
        spec_rgb_offsets(format).2 < spec_bytes_per_pixel(format),
        spec_rgb_offsets(format).0 != spec_rgb_offsets(format).1,
        spec_rgb_offsets(format).1 != spec_rgb_offsets(format).2,
        spec_rgb_offsets(format).0 != spec_rgb_offsets(format).2,
{
}

proof fn lemma_dims_product_bound(width: u32, height: u32, bpp: usize)
    requires
        bpp <= 4,
    ensures
        width as int * height as int <= u64::MAX,
        width as int * height as int * bpp as int <= 4 * u64::MAX,
{
    assert(width as int * height as int <= u32::MAX as int * u32::MAX as int) by (nonlinear_arith)
        requires
            width as int <= u32::MAX as int,
            height as int <= u32::MAX as int,
    ;
    assert(width as int * height as int * bpp as int <= width as int * height as int * 4)
        by (nonlinear_arith)
        requires
            bpp <= 4,
            width as int * height as int >= 0,
    ;
}

/// Input image for face detection.
pub struct ImageRef<'a> {
    /// Raw pixel data in the specified format.
    pub pixels: &'a [u8],
    /// Image width in pixels.
    pub width: u32,
    /// Image height in pixels.
    pub height: u32,
    /// Pixel format of the data.
    pub format: PixelFormat,
}

impl<'a> ImageRef<'a> {
    /// Whether the buffer holds every pixel the dimensions and format call for.
    pub open spec fn is_complete(&self) -> bool {
        self.pixels@.len() >= required_len(self.width, self.height, self.format)
    }

    /// Create a new image reference, validating dimensions match pixel data length.
    ///
    /// Fails exactly when the buffer is shorter than
    /// `width * height * bytes_per_pixel`.
    pub fn new(pixels: &'a [u8], width: u32, height: u32, format: PixelFormat) -> (r: Result<
        Self,
        &'static str,
    >)
        ensures
            match r {
                Ok(img) => {
                    &&& img.pixels@ == pixels@
                    &&& img.width == width
                    &&& img.height == height
                    &&& img.format == format
                    &&& img.is_complete()
                },
                Err(msg) => {
                    &&& pixels@.len() < required_len(width, height, format)
                    &&& msg@ == "pixel buffer too small for given dimensions and format"@
                },
            },
            r is Ok <==> pixels@.len() >= required_len(width, height, format),
    {
        let bpp = format.bytes_per_pixel();
        proof {
            lemma_dims_product_bound(width, height, bpp);
        }
        let wh: u64 = width as u64 * height as u64;
        let len = pixels.len();
        // The product can exceed usize on narrow targets; compare in u128 so no
        // buffer that could exist is ever accepted for a size it cannot hold.
        let expected: u128 = wh as u128 * bpp as u128;
        if (len as u128) < expected {
            return Err("pixel buffer too small for given dimensions and format");
        }
        Ok(ImageRef { pixels, width, height, format })
    }
}

/// Crop rectangle in pixel coordinates.
#[derive(Debug, Clone, Copy, PartialEq, Eq, Structural)]
pub struct CropRect {
    pub x: u32,
    pub y: u32,
    pub w: u32,
    pub h: u32,
}

} // verus!
