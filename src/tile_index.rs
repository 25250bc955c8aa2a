//! Addressing of tiles in a quad-tree tiling scheme.
use vstd::prelude::*;

verus! {

/// Identifies a tile by its zoom level and its column and row at that level.
#[derive(Debug, Clone, Copy, PartialEq, Eq, Hash, Structural)]
pub struct TileIndex {
    pub z: u32,
    pub x: i32,
    pub y: i32,
}

impl TileIndex {
    /// Creates an index from its column, row and zoom level.
    pub fn new(x: i32, y: i32, z: u32) -> (r: TileIndex)
        ensures
            r.x == x,
            r.y == y,
            r.z == z,
    {
        TileIndex { z, x, y }
    }
}

} // verus!
