//! The settings of the single-player calculator.

use crate::tile::Tile;
use vstd::prelude::*;

verus! {

/// The most draws that can be left in a kyoku: the dealer's first draw is
/// already made.
pub const MAX_TSUMOS_LEFT: usize = 17;

/// Whether the calculator can search from a hand `cur_shanten` from
/// complete with `tsumos_left` draws to come: the hand is not complete
/// yet, and at least one and at most `MAX_TSUMOS_LEFT` draws are left.
pub fn sp_args_ok(cur_shanten: i8, tsumos_left: u8) -> (r: bool)
    ensures
        r == (cur_shanten >= 0 && 1 <= tsumos_left <= MAX_TSUMOS_LEFT),
{
    cur_shanten >= 0 && tsumos_left >= 1 && tsumos_left as usize <= MAX_TSUMOS_LEFT
}

/// What the single-player calculator knows of the hand besides the tiles:
/// its melds, the winds, the doras and the options of the search.
#[derive(Debug)]
pub struct SPCalculator<'a> {
    pub tehai_len_div3: u8,
    pub chis: &'a [u8],
    pub pons: &'a [u8],
    pub minkans: &'a [u8],
    pub ankans: &'a [u8],
    pub bakaze: u8,
    pub jikaze: u8,
    pub is_menzen: bool,
    /// Doras among the melds, closed kans included.
    pub num_doras_in_fuuro: u8,
    pub dora_indicators: &'a [Tile],
    pub calc_double_riichi: bool,
    pub calc_haitei: bool,
    pub prefer_riichi: bool,
    pub sort_result: bool,
    /// Maximize the chance to win rather than the expected score.
    pub maximize_win_prob: bool,
    /// Take hand changes into account.
    pub calc_tegawari: bool,
    /// Take moves that raise the shanten number into account.
    pub calc_shanten_down: bool,
}

} // verus!
