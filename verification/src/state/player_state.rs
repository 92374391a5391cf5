use super::action::ActionCandidate;
use crate::tile::Tile;
use tinyvec::ArrayVec;
use vstd::prelude::*;

verus! {

/// `Clone` of `tinyvec::ArrayVec`: copies the items and the length; nothing
/// is stated of the copy, as the items' own `clone` may differ.
pub assume_specification<A>[ <ArrayVec<A> as Clone>::clone ](v: &ArrayVec<A>) -> ArrayVec<A>
    where
        A: tinyvec::Array + Clone,
        A::Item: Clone,
;

/// The ids of the tiles that an `ArrayVec` of up to three tiles holds, in
/// order.
pub uninterp spec fn tile_items(v: ArrayVec<[Tile; 3]>) -> Seq<int>;

/// The bytes that an `ArrayVec` of up to four bytes holds, in order.
pub uninterp spec fn byte_items(v: ArrayVec<[u8; 4]>) -> Seq<u8>;

/// `tinyvec::ArrayVec::new`: an empty vector.
#[verifier::external_body]
fn tile_vec_new() -> (r: ArrayVec<[Tile; 3]>)
    ensures
        tile_items(r) == Seq::<int>::empty(),
{
    ArrayVec::new()
}

/// `tinyvec::ArrayVec::new`: an empty vector.
#[verifier::external_body]
fn byte_vec_new() -> (r: ArrayVec<[u8; 4]>)
    ensures
        byte_items(r) == Seq::<u8>::empty(),
{
    ArrayVec::new()
}

/// `tinyvec::ArrayVec::as_slice`: the items held, in order.
#[verifier::external_body]
pub(crate) fn tile_vec_slice(v: &ArrayVec<[Tile; 3]>) -> (r: &[Tile])
    ensures
        r@.map_values(|t: Tile| t.id()) == tile_items(*v),
{
    v.as_slice()
}

/// `tinyvec::ArrayVec::as_slice`: the items held, in order.
#[verifier::external_body]
pub(crate) fn byte_vec_slice(v: &ArrayVec<[u8; 4]>) -> (r: &[u8])
    ensures
        r@ == byte_items(*v),
{
    v.as_slice()
}

/// The observable state of one seat, as the checks and the agents read it.
#[derive(Clone)]
pub struct PlayerState {
    pub player_id: u8,
    /// Does not include aka.
    pub tehai: [u8; 34],
    /// Does not consider yakunashi, but does consider other kinds of
    /// furiten.
    pub waits: [bool; 34],
    /// Relative to `player_id`.
    pub oya: u8,
    pub at_turn: u8,
    pub shanten: i8,
    pub last_self_tsumo: Option<Tile>,
    pub last_kawa_tile: Option<Tile>,
    pub last_cans: ActionCandidate,
    /// Both deaka'd.
    pub ankan_candidates: ArrayVec<[Tile; 3]>,
    pub kakan_candidates: ArrayVec<[Tile; 3]>,
    pub can_w_riichi: bool,
    pub riichi_declared: [bool; 4],
    pub riichi_accepted: [bool; 4],
    pub at_furiten: bool,
    /// All deaka'd.
    pub chis: ArrayVec<[u8; 4]>,
    pub pons: ArrayVec<[u8; 4]>,
    pub minkans: ArrayVec<[u8; 4]>,
    pub ankans: ArrayVec<[u8; 4]>,
    pub akas_in_hand: [bool; 3],
}

impl PlayerState {
    /// An empty state for seat `player_id`.
    pub fn new(player_id: u8) -> (r: PlayerState)
        requires
            player_id < 4,
        ensures
            r.player_id == player_id,
            r.tehai@ == Seq::new(34, |i: int| 0u8),
            r.waits@ == Seq::new(34, |i: int| false),
            r.oya == 0,
            r.at_turn == 0,
            r.shanten == 0,
            r.last_self_tsumo is None,
            r.last_kawa_tile is None,
            r.last_cans == ActionCandidate::empty_spec(),
            tile_items(r.ankan_candidates) == Seq::<int>::empty(),
            tile_items(r.kakan_candidates) == Seq::<int>::empty(),
            !r.can_w_riichi,
            r.riichi_declared@ == Seq::new(4, |i: int| false),
            r.riichi_accepted@ == Seq::new(4, |i: int| false),
            !r.at_furiten,
            byte_items(r.chis) == Seq::<u8>::empty(),
            byte_items(r.pons) == Seq::<u8>::empty(),
            byte_items(r.minkans) == Seq::<u8>::empty(),
            byte_items(r.ankans) == Seq::<u8>::empty(),
            r.akas_in_hand@ == Seq::new(3, |i: int| false),
    {
        let r = PlayerState {
            player_id,
            tehai: [0; 34],
            waits: [false; 34],
            oya: 0,
            at_turn: 0,
            shanten: 0,
            last_self_tsumo: None,
            last_kawa_tile: None,
            last_cans: ActionCandidate::empty(),
            ankan_candidates: tile_vec_new(),
            kakan_candidates: tile_vec_new(),
            can_w_riichi: false,
            riichi_declared: [false; 4],
            riichi_accepted: [false; 4],
            at_furiten: false,
            chis: byte_vec_new(),
            pons: byte_vec_new(),
            minkans: byte_vec_new(),
            ankans: byte_vec_new(),
            akas_in_hand: [false; 3],
        };
        proof {
            assert(r.tehai@ =~= Seq::new(34, |i: int| 0u8));
            assert(r.waits@ =~= Seq::new(34, |i: int| false));
            assert(r.riichi_declared@ =~= Seq::new(4, |i: int| false));
            assert(r.riichi_accepted@ =~= Seq::new(4, |i: int| false));
            assert(r.akas_in_hand@ =~= Seq::new(3, |i: int| false));
        }
        r
    }
}

} // verus!
