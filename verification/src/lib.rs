//! Bakes the printable ASCII glyphs of a font into one tiled grayscale
//! texture atlas and lays text out as textured quads over that atlas.

pub mod atlas;
pub mod bake;
pub mod error;
pub mod font;
pub mod geometry;
pub mod layout;
pub mod pack;
pub mod params;
pub mod raster;
pub mod shelf;
pub mod tile;
