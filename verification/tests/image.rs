use zensally::image::{CropRect, ImageRef, PixelFormat};

#[test]
fn bytes_per_pixel_per_format() {
    assert_eq!(PixelFormat::Bgra.bytes_per_pixel(), 4);
    assert_eq!(PixelFormat::Rgba.bytes_per_pixel(), 4);
    assert_eq!(PixelFormat::Rgb.bytes_per_pixel(), 3);
}

#[test]
fn rgb_offsets_per_format() {
    assert_eq!(PixelFormat::Bgra.rgb_offsets(), (2, 1, 0));
    assert_eq!(PixelFormat::Rgba.rgb_offsets(), (0, 1, 2));
    assert_eq!(PixelFormat::Rgb.rgb_offsets(), (0, 1, 2));
}

#[test]
fn image_ref_accepts_exact_buffer() {
    let pixels = vec![0u8; 2 * 3 * 4];
    let img = ImageRef::new(&pixels, 2, 3, PixelFormat::Rgba).unwrap();
    assert_eq!(img.width, 2);
    assert_eq!(img.height, 3);
    assert_eq!(img.format, PixelFormat::Rgba);
    assert_eq!(img.pixels.len(), 24);
}

#[test]
fn image_ref_accepts_larger_buffer() {
    let pixels = vec![7u8; 100];
    assert!(ImageRef::new(&pixels, 3, 3, PixelFormat::Rgb).is_ok());
}

#[test]
fn image_ref_rejects_short_buffer() {
    let pixels = vec![0u8; 2 * 3 * 3 - 1];
    let err = ImageRef::new(&pixels, 2, 3, PixelFormat::Rgb).err().unwrap();
    assert_eq!(err, "pixel buffer too small for given dimensions and format");
}

#[test]
fn image_ref_rejects_huge_dimensions() {
    let pixels = vec![0u8; 16];
    assert!(ImageRef::new(&pixels, u32::MAX, u32::MAX, PixelFormat::Bgra).is_err());
}

#[test]
fn image_ref_empty_image() {
    let pixels: Vec<u8> = Vec::new();
    assert!(ImageRef::new(&pixels, 0, 10, PixelFormat::Rgb).is_ok());
}

#[test]
fn crop_rect_equality() {
    let a = CropRect { x: 1, y: 2, w: 3, h: 4 };
    let b = a;
    assert_eq!(a, b);
    assert_ne!(a, CropRect { x: 1, y: 2, w: 3, h: 5 });
}
