use super::action::ActionCandidate;
use super::player_state::{byte_items, byte_vec_slice, tile_items, tile_vec_slice, PlayerState};
use crate::tile::Tile;
use vstd::prelude::*;

verus! {

impl PlayerState {
    pub fn player_id(&self) -> (r: u8)
        ensures
            r == self.player_id,
    {
        self.player_id
    }

    /// Whether this seat is the dealer.
    pub fn is_oya(&self) -> (r: bool)
        ensures
            r == (self.oya == 0),
    {
        self.oya == 0
    }

    pub fn tehai(&self) -> (r: [u8; 34])
        ensures
            r == self.tehai,
    {
        self.tehai
    }

    pub fn akas_in_hand(&self) -> (r: [bool; 3])
        ensures
            r == self.akas_in_hand,
    {
        self.akas_in_hand
    }

    pub fn chis(&self) -> (r: &[u8])
        ensures
            r@ == byte_items(self.chis),
    {
        byte_vec_slice(&self.chis)
    }

    pub fn pons(&self) -> (r: &[u8])
        ensures
            r@ == byte_items(self.pons),
    {
        byte_vec_slice(&self.pons)
    }

    pub fn minkans(&self) -> (r: &[u8])
        ensures
            r@ == byte_items(self.minkans),
    {
        byte_vec_slice(&self.minkans)
    }

    pub fn ankans(&self) -> (r: &[u8])
        ensures
            r@ == byte_items(self.ankans),
    {
        byte_vec_slice(&self.ankans)
    }

    pub fn at_turn(&self) -> (r: u8)
        ensures
            r == self.at_turn,
    {
        self.at_turn
    }

    pub fn shanten(&self) -> (r: i8)
        ensures
            r == self.shanten,
    {
        self.shanten
    }

    pub fn waits(&self) -> (r: [bool; 34])
        ensures
            r == self.waits,
    {
        self.waits
    }

    pub fn last_self_tsumo(&self) -> (r: Option<Tile>)
        ensures
            r == self.last_self_tsumo,
    {
        self.last_self_tsumo
    }

    pub fn last_kawa_tile(&self) -> (r: Option<Tile>)
        ensures
            r == self.last_kawa_tile,
    {
        self.last_kawa_tile
    }

    pub fn last_cans(&self) -> (r: ActionCandidate)
        ensures
            r == self.last_cans,
    {
        self.last_cans
    }

    pub fn ankan_candidates(&self) -> (r: &[Tile])
        ensures
            r@.map_values(|t: Tile| t.id()) == tile_items(self.ankan_candidates),
    {
        tile_vec_slice(&self.ankan_candidates)
    }

    pub fn kakan_candidates(&self) -> (r: &[Tile])
        ensures
            r@.map_values(|t: Tile| t.id()) == tile_items(self.kakan_candidates),
    {
        tile_vec_slice(&self.kakan_candidates)
    }

    pub fn can_w_riichi(&self) -> (r: bool)
        ensures
            r == self.can_w_riichi,
    {
        self.can_w_riichi
    }

    pub fn self_riichi_declared(&self) -> (r: bool)
        ensures
            r == self.riichi_declared@[0],
    {
        self.riichi_declared[0]
    }

    pub fn self_riichi_accepted(&self) -> (r: bool)
        ensures
            r == self.riichi_accepted@[0],
    {
        self.riichi_accepted[0]
    }

    pub fn at_furiten(&self) -> (r: bool)
        ensures
            r == self.at_furiten,
    {
        self.at_furiten
    }
}

} // verus!
