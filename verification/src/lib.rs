//! Tile-store statistics and style visibility rules.

pub mod copy;
pub mod copy_laws;
pub mod json;
pub mod mbtiles;
pub mod mbtiles_laws;
pub mod paint;
pub mod paths;
pub mod style;
pub mod style_laws;
