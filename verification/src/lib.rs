//! Tiled preview images for 3D colour lookup tables.
//!
//! A `.cube` text is parsed into a [`cube::Cube`], rendered slice by slice
//! into square tiles, and the tiles are stacked into one atlas.

pub mod cube;
pub mod literal;
pub mod pattern;
pub mod raster;
pub mod utils;
