use crate::tile::{spec_deaka, Tile};
use vstd::prelude::*;

verus! {

/// Where the called tile sits in a chi: below, between or above the two
/// tiles from the hand.
#[derive(Debug, Clone, Copy, PartialEq, Eq)]
pub enum ChiType {
    Low,
    Mid,
    High,
}

/// The chi type of calling `tile` with `consumed`, red fives counted as
/// plain fives.
pub open spec fn spec_chi_type(c0: int, c1: int, tile: int) -> ChiType {
    let a = spec_deaka(c0);
    let b = spec_deaka(c1);
    let lo = if a <= b { a } else { b };
    let hi = if a <= b { b } else { a };
    let t = spec_deaka(tile);
    if t < lo {
        ChiType::Low
    } else if t < hi {
        ChiType::Mid
    } else {
        ChiType::High
    }
}

impl ChiType {
    pub fn new(consumed: [Tile; 2], tile: Tile) -> (r: ChiType)
        ensures
            r == spec_chi_type(consumed@[0].id(), consumed@[1].id(), tile.id()),
    {
        let a = consumed[0].deaka().as_u8();
        let b = consumed[1].deaka().as_u8();
        let min = if a <= b {
            a
        } else {
            b
        };
        let max = if a <= b {
            b
        } else {
            a
        };
        let tile_id = tile.deaka().as_u8();
        if tile_id < min {
            ChiType::Low
        } else if tile_id < max {
            ChiType::Mid
        } else {
            ChiType::High
        }
    }
}

} // verus!
