//! Rendering core for a minimal on-screen text overlay.
//!
//! A packed monochrome image atlas is decoded into a grid of glyph bitmaps,
//! each glyph is resampled to a configured cell size with a triangular
//! filter, and a rasterizer composites glyphs for lines of text into a
//! caller-owned ARGB pixel buffer.

pub mod app;
pub mod atlas;
pub mod raster;
pub mod fonts;
pub mod pbm;
pub mod resample;
