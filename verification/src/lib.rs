//! Tray-icon normalization: decode raw image bytes, crop the bitmap to the
//! tight bounding box of its non-transparent pixels, and upscale short icons
//! to a minimum display height, never downscaling.

pub mod bitmap;
pub mod icon;

