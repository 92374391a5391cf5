use crate::tile::Tile;
use vstd::prelude::*;

verus! {

/// A tile that can be discarded, and how the shanten number changes.
#[derive(Debug, Default, Clone, Copy)]
pub struct DiscardTile {
    pub tile: Tile,
    pub shanten_diff: i8,
}

/// A tile that can be drawn, how many are left, and how the shanten number
/// changes.
#[derive(Debug, Default, Clone, Copy)]
pub struct DrawTile {
    pub tile: Tile,
    pub count: u8,
    pub shanten_diff: i8,
}

/// A tile that lowers the shanten number, and how many are left.
#[derive(Debug, Default, Clone, Copy)]
pub struct RequiredTile {
    pub tile: Tile,
    pub count: u8,
}

} // verus!
