use zensally::image::{ImageRef, PixelFormat};
use zensally::preprocess::{letterbox_padding, next_sample_index, nchw_offsets, pixel_offset, ResizeMode};

#[test]
fn letterbox_padding_centres() {
    assert_eq!(letterbox_padding(320, 320), 0);
    assert_eq!(letterbox_padding(320, 240), 40);
    assert_eq!(letterbox_padding(240, 179), 30);
}

#[test]
fn next_sample_index_clamps() {
    assert_eq!(next_sample_index(0, 5), 1);
    assert_eq!(next_sample_index(3, 5), 4);
    assert_eq!(next_sample_index(4, 5), 4);
    assert_eq!(next_sample_index(0, 1), 0);
}

#[test]
fn pixel_offset_row_major() {
    let pixels = vec![0u8; 4 * 3 * 3];
    let img = ImageRef::new(&pixels, 4, 3, PixelFormat::Rgb).unwrap();
    assert_eq!(pixel_offset(&img, 0, 0), 0);
    assert_eq!(pixel_offset(&img, 1, 0), 3);
    assert_eq!(pixel_offset(&img, 0, 1), 12);
    assert_eq!(pixel_offset(&img, 3, 2), 33);
}

#[test]
fn nchw_offsets_planes() {
    assert_eq!(nchw_offsets(0, 0, 320, 240), (0, 76800, 153600));
    assert_eq!(nchw_offsets(5, 2, 320, 240), (645, 77445, 154245));
}

#[test]
fn resize_modes_distinct() {
    assert_ne!(ResizeMode::Letterbox, ResizeMode::Stretch);
}
