//! A bidirectional codec for a composite sprite-asset format: a metadata
//! document paired, per animation, with three aligned pixel sheets — a color
//! sheet, a shadow-marker sheet and an offsets-marker sheet. Decoding slices
//! the sheets into per-frame cells and reads each frame's five anchor
//! coordinates out of uniquely-colored marker pixels; encoding packs the
//! frames back into minimal grid sheets and re-stamps the markers. Every
//! validation step and both directions of the codec carry verified
//! contracts, down to the pixel.

pub mod animdata;
pub mod error;
pub mod grid;
pub mod image_data;
pub mod offsets;
pub mod pack;
pub mod png_io;
pub mod sprite;
