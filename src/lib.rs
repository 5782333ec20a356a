//! Renders text as terminal art made of Unicode quadrant block characters.
//!
//! A canvas of monochrome pixels is packed two by two into block characters,
//! which doubles the resolution of plain one-cell-per-pixel rendering.
mod bits;
pub mod raster;
pub mod trim;
pub mod pipeline;

pub use raster::{
    Raster, RotatedRaster, RotatedRaster180, RotatedRaster270, RotatedRaster90, SimpleRaster,
};
pub use pipeline::{rasterize, render_glyphs, GlyphInk};
pub use trim::trim_blank_lines;
