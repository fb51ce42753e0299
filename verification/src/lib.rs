//! Verified core of a face-detection and saliency toolkit for content-aware
//! cropping: image descriptions, the greedy suppression step of
//! non-maximum suppression, anchor grids, embedded-model unpacking, and the
//! rules that locate the inference plugin.

pub mod anchors;
pub mod image;
pub mod model;
pub mod nms;
pub mod outputs;
pub mod plugin;
pub mod preprocess;

pub use image::{CropRect, ImageRef, PixelFormat};
