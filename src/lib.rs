//! Tile acquisition and render-primitive batching for a map engine.

pub mod tile_index;
pub mod url;
pub mod loader;
pub mod geometry;
pub mod image;
pub mod wire;
pub mod mvt_geometry;
pub mod mvt;
pub mod bundle;
pub mod symbol;
