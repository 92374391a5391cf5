//! Hand and wall state of the single-player calculator.

use super::tile::{DiscardTile, DrawTile, RequiredTile};
use crate::algo::shanten::{all_shanten, calc_all, kinds_with, table_distance};
use crate::tile::{spec_akaize, spec_deaka, spec_is_aka, Tile};
use tinyvec::ArrayVec;
use vstd::prelude::*;

verus! {

#[verifier::external_type_specification]
#[verifier::external_body]
#[verifier::reject_recursive_types(A)]
pub struct ExArrayVec<A>(ArrayVec<A>);

/// The (tile id, shanten change) pairs an `ArrayVec` of discard tiles holds,
/// in order.
pub uninterp spec fn discard_items(v: ArrayVec<[DiscardTile; 14]>) -> Seq<(int, int)>;

/// The (tile id, count, shanten change) triples an `ArrayVec` of draw tiles
/// holds, in order.
pub uninterp spec fn draw_items(v: ArrayVec<[DrawTile; 37]>) -> Seq<(int, int, int)>;

/// The (tile id, count) pairs an `ArrayVec` of required tiles holds, in
/// order.
pub uninterp spec fn required_items(v: ArrayVec<[RequiredTile; 34]>) -> Seq<(int, int)>;

/// `tinyvec::ArrayVec::new`: an empty vector.
#[verifier::external_body]
fn discard_vec_new() -> (r: ArrayVec<[DiscardTile; 14]>)
    ensures
        discard_items(r) == Seq::<(int, int)>::empty(),
{
    ArrayVec::new()
}

/// `tinyvec::ArrayVec::push`: appends the item; it panics when full, so the
/// vector must hold fewer than 14 items.
#[verifier::external_body]
fn discard_vec_push(v: &mut ArrayVec<[DiscardTile; 14]>, x: DiscardTile)
    requires
        discard_items(*old(v)).len() < 14,
    ensures
        discard_items(*final(v)) == discard_items(*old(v)).push((x.tile.id(), x.shanten_diff as int)),
{
    v.push(x)
}

/// `tinyvec::ArrayVec::new`: an empty vector.
#[verifier::external_body]
fn draw_vec_new() -> (r: ArrayVec<[DrawTile; 37]>)
    ensures
        draw_items(r) == Seq::<(int, int, int)>::empty(),
{
    ArrayVec::new()
}

/// `tinyvec::ArrayVec::push`: appends the item; the vector must hold fewer
/// than 37 items.
#[verifier::external_body]
fn draw_vec_push(v: &mut ArrayVec<[DrawTile; 37]>, x: DrawTile)
    requires
        draw_items(*old(v)).len() < 37,
    ensures
        draw_items(*final(v)) == draw_items(*old(v)).push(
            (x.tile.id(), x.count as int, x.shanten_diff as int),
        ),
{
    v.push(x)
}

/// `tinyvec::ArrayVec::new`: an empty vector.
#[verifier::external_body]
fn required_vec_new() -> (r: ArrayVec<[RequiredTile; 34]>)
    ensures
        required_items(r) == Seq::<(int, int)>::empty(),
{
    ArrayVec::new()
}

/// `tinyvec::ArrayVec::push`: appends the item; the vector must hold fewer
/// than 34 items.
#[verifier::external_body]
fn required_vec_push(v: &mut ArrayVec<[RequiredTile; 34]>, x: RequiredTile)
    requires
        required_items(*old(v)).len() < 34,
    ensures
        required_items(*final(v)) == required_items(*old(v)).push((x.tile.id(), x.count as int)),
{
    v.push(x)
}

/// Mutable state of both the hand and the board.
#[derive(Clone, PartialEq, Eq, Hash)]
pub struct State {
    pub tehai: [u8; 34],
    pub akas_in_hand: [bool; 3],
    pub tiles_in_wall: [u8; 34],
    pub akas_in_wall: [bool; 3],
    pub n_extra_tsumo: u8,
}

/// The starting point of a calculation: the hand and what has been seen.
#[derive(Clone)]
pub struct InitState {
    pub tehai: [u8; 34],
    pub akas_in_hand: [bool; 3],
    pub tiles_seen: [u8; 34],
    pub akas_seen: [bool; 3],
}

/// A `State` as plain values: hand counts, red fives in hand, wall counts,
/// red fives in the wall, extra tsumos.
pub type StateModel = (Seq<u8>, Seq<bool>, Seq<u8>, Seq<bool>, u8);

impl State {
    pub open spec fn model(&self) -> StateModel {
        (self.tehai@, self.akas_in_hand@, self.tiles_in_wall@, self.akas_in_wall@, self.n_extra_tsumo)
    }
}

/// Takes `t` from `counts` and, for a red five, clears its flag.
pub open spec fn take_tile(counts: Seq<u8>, akas: Seq<bool>, t: int) -> (Seq<u8>, Seq<bool>) {
    let d = spec_deaka(t);
    (
        counts.update(d, (counts[d] - 1) as u8),
        if spec_is_aka(t) { akas.update(t - 34, false) } else { akas },
    )
}

/// Puts `t` into `counts` and, for a red five, sets its flag.
pub open spec fn put_tile(counts: Seq<u8>, akas: Seq<bool>, t: int) -> (Seq<u8>, Seq<bool>) {
    let d = spec_deaka(t);
    (
        counts.update(d, (counts[d] + 1) as u8),
        if spec_is_aka(t) { akas.update(t - 34, true) } else { akas },
    )
}

pub open spec fn spec_discard(m: StateModel, t: int) -> StateModel {
    let (h, a) = take_tile(m.0, m.1, t);
    (h, a, m.2, m.3, m.4)
}

pub open spec fn spec_undo_discard(m: StateModel, t: int) -> StateModel {
    let (h, a) = put_tile(m.0, m.1, t);
    (h, a, m.2, m.3, m.4)
}

pub open spec fn spec_deal(m: StateModel, t: int) -> StateModel {
    let (w, aw) = take_tile(m.2, m.3, t);
    spec_undo_discard((m.0, m.1, w, aw, m.4), t)
}

pub open spec fn spec_undo_deal(m: StateModel, t: int) -> StateModel {
    let m1 = spec_discard(m, t);
    let (w, aw) = put_tile(m1.2, m1.3, t);
    (m1.0, m1.1, w, aw, m1.4)
}

/// `t` can be taken from `counts`/`akas`: a known tile, present, and a red
/// five only when its flag is set.
pub open spec fn can_take(counts: Seq<u8>, akas: Seq<bool>, t: int) -> bool {
    &&& 0 <= t < 37
    &&& counts[spec_deaka(t)] > 0
    &&& spec_is_aka(t) ==> akas[t - 34]
}

/// `t` can be put into `counts`/`akas`: a known tile whose count is below
/// 255, and a red five only when its flag is clear.
pub open spec fn can_put(counts: Seq<u8>, akas: Seq<bool>, t: int) -> bool {
    &&& 0 <= t < 37
    &&& counts[spec_deaka(t)] < 255
    &&& spec_is_aka(t) ==> !akas[t - 34]
}

/// The shanten number that the calculator uses.
pub open spec fn sp_shanten(h: Seq<u8>, m: int) -> int {
    all_shanten(h, m, table_distance(h, m) - 1)
}

fn take_exec(counts: &mut [u8; 34], akas: &mut [bool; 3], tile: Tile)
    requires
        tile.id() < 37,
        old(counts)@[spec_deaka(tile.id())] > 0,
    ensures
        (final(counts)@, final(akas)@) == take_tile(old(counts)@, old(akas)@, tile.id()),
{
    let d = tile.deaka().as_usize();
    counts[d] = counts[d] - 1;
    let id = tile.as_u8();
    if id == 34 {
        akas[0] = false;
    } else if id == 35 {
        akas[1] = false;
    } else if id == 36 {
        akas[2] = false;
    }
}

fn put_exec(counts: &mut [u8; 34], akas: &mut [bool; 3], tile: Tile)
    requires
        tile.id() < 37,
        old(counts)@[spec_deaka(tile.id())] < 255,
    ensures
        (final(counts)@, final(akas)@) == put_tile(old(counts)@, old(akas)@, tile.id()),
{
    let d = tile.deaka().as_usize();
    counts[d] = counts[d] + 1;
    let id = tile.as_u8();
    if id == 34 {
        akas[0] = true;
    } else if id == 35 {
        akas[1] = true;
    } else if id == 36 {
        akas[2] = true;
    }
}

/// What the wall holds once `seen` has been seen.
pub open spec fn unseen(seen: Seq<u8>) -> Seq<u8> {
    Seq::new(34, |i: int| (4 - seen[i]) as u8)
}

pub open spec fn flipped(a: Seq<bool>) -> Seq<bool> {
    Seq::new(3, |i: int| !a[i])
}

impl State {
    /// The state at the start: the wall holds every tile not seen.
    pub fn from_init(init: InitState) -> (r: State)
        requires
            forall|i: int| 0 <= i < 34 ==> init.tiles_seen@[i] <= 4,
        ensures
            r.model() == (init.tehai@, init.akas_in_hand@, unseen(init.tiles_seen@), flipped(init.akas_seen@), 0u8),
    {
        let mut tiles_in_wall = init.tiles_seen;
        let mut akas_in_wall = init.akas_seen;
        let mut i: usize = 0;
        while i < 34
            invariant
                i <= 34,
                forall|j: int| 0 <= j < 34 ==> init.tiles_seen@[j] <= 4,
                forall|j: int| 0 <= j < i ==> tiles_in_wall@[j] == (4 - init.tiles_seen@[j]) as u8,
                forall|j: int| i <= j < 34 ==> tiles_in_wall@[j] == init.tiles_seen@[j],
            decreases 34 - i,
        {
            tiles_in_wall[i] = 4 - tiles_in_wall[i];
            i += 1;
        }
        let mut k: usize = 0;
        while k < 3
            invariant
                k <= 3,
                forall|j: int| 0 <= j < k ==> akas_in_wall@[j] == !init.akas_seen@[j],
                forall|j: int| k <= j < 3 ==> akas_in_wall@[j] == init.akas_seen@[j],
            decreases 3 - k,
        {
            akas_in_wall[k] = !akas_in_wall[k];
            k += 1;
        }
        let r = State {
            tehai: init.tehai,
            akas_in_hand: init.akas_in_hand,
            tiles_in_wall,
            akas_in_wall,
            n_extra_tsumo: 0,
        };
        proof {
            assert(r.tiles_in_wall@ =~= unseen(init.tiles_seen@));
            assert(r.akas_in_wall@ =~= flipped(init.akas_seen@));
        }
        r
    }

    /// Takes `tile` out of the hand.
    pub fn discard(&mut self, tile: Tile)
        requires
            tile.id() < 37,
            old(self).tehai@[spec_deaka(tile.id())] > 0,
        ensures
            final(self).model() == spec_discard(old(self).model(), tile.id()),
    {
        take_exec(&mut self.tehai, &mut self.akas_in_hand, tile);
    }

    /// Puts `tile` back into the hand.
    pub fn undo_discard(&mut self, tile: Tile)
        requires
            tile.id() < 37,
            old(self).tehai@[spec_deaka(tile.id())] < 255,
        ensures
            final(self).model() == spec_undo_discard(old(self).model(), tile.id()),
    {
        put_exec(&mut self.tehai, &mut self.akas_in_hand, tile);
    }

    /// Draws `tile` from the wall into the hand.
    pub fn deal(&mut self, tile: Tile)
        requires
            tile.id() < 37,
            old(self).tiles_in_wall@[spec_deaka(tile.id())] > 0,
            old(self).tehai@[spec_deaka(tile.id())] < 255,
        ensures
            final(self).model() == spec_deal(old(self).model(), tile.id()),
    {
        take_exec(&mut self.tiles_in_wall, &mut self.akas_in_wall, tile);
        self.undo_discard(tile);
    }

    /// Puts a drawn `tile` back from the hand into the wall.
    pub fn undo_deal(&mut self, tile: Tile)
        requires
            tile.id() < 37,
            old(self).tehai@[spec_deaka(tile.id())] > 0,
            old(self).tiles_in_wall@[spec_deaka(tile.id())] < 255,
        ensures
            final(self).model() == spec_undo_deal(old(self).model(), tile.id()),
    {
        self.discard(tile);
        put_exec(&mut self.tiles_in_wall, &mut self.akas_in_wall, tile);
    }
}

/// Undoing a discard restores the state.
pub proof fn lemma_discard_undo(m: StateModel, t: int)
    requires
        m.0.len() == 34,
        m.1.len() == 3,
        can_take(m.0, m.1, t),
    ensures
        spec_undo_discard(spec_discard(m, t), t) == m,
{
    let r = spec_undo_discard(spec_discard(m, t), t);
    assert(r.0 =~= m.0);
    assert(r.1 =~= m.1);
}

/// Discarding a tile just put back restores the state.
pub proof fn lemma_undo_discard_discard(m: StateModel, t: int)
    requires
        m.0.len() == 34,
        m.1.len() == 3,
        can_put(m.0, m.1, t),
    ensures
        spec_discard(spec_undo_discard(m, t), t) == m,
{
    let r = spec_discard(spec_undo_discard(m, t), t);
    assert(r.0 =~= m.0);
    assert(r.1 =~= m.1);
}

/// Undoing a deal restores the state.
pub proof fn lemma_deal_undo(m: StateModel, t: int)
    requires
        m.0.len() == 34,
        m.1.len() == 3,
        m.2.len() == 34,
        m.3.len() == 3,
        can_take(m.2, m.3, t),
        can_put(m.0, m.1, t),
    ensures
        spec_undo_deal(spec_deal(m, t), t) == m,
{
    let r = spec_undo_deal(spec_deal(m, t), t);
    assert(r.0 =~= m.0);
    assert(r.1 =~= m.1);
    assert(r.2 =~= m.2);
    assert(r.3 =~= m.3);
}

/// A deal moves one tile from the wall to the hand: the total number of
/// tiles in hand and wall together stays the same.
pub proof fn lemma_deal_moves_one(m: StateModel, t: int)
    requires
        m.0.len() == 34,
        m.2.len() == 34,
        can_take(m.2, m.3, t),
        m.0[spec_deaka(t)] < 255,
    ensures
        spec_deal(m, t).0[spec_deaka(t)] == m.0[spec_deaka(t)] + 1,
        spec_deal(m, t).2[spec_deaka(t)] == m.2[spec_deaka(t)] - 1,
        forall|i: int|
            0 <= i < 34 && i != spec_deaka(t) ==> spec_deal(m, t).0[i] == m.0[i] && spec_deal(m, t).2[i]
                == m.2[i],
{
}


/// The shanten number after taking one tile of kind `tid` from `h`.
pub open spec fn discard_after(h: Seq<u8>, tid: int, m: int) -> int {
    sp_shanten(h.update(tid, (h[tid] - 1) as u8), m)
}

/// The shanten number after adding one tile of kind `tid` to `h`.
pub open spec fn draw_after(h: Seq<u8>, tid: int, m: int) -> int {
    sp_shanten(h.update(tid, (h[tid] + 1) as u8), m)
}

/// Every shanten change over the discard candidates fits an `i8`.
pub open spec fn discard_diffs_fit(h: Seq<u8>, m: int, shanten: int) -> bool {
    forall|tid: int| 0 <= tid < 34 && h[tid] > 0 ==> -128 <= #[trigger] discard_after(h, tid, m) - shanten <= 127
}

/// Every kind left in the wall can be added to the hand, and every shanten
/// change fits an `i8`.
pub open spec fn draw_diffs_fit(h: Seq<u8>, w: Seq<u8>, m: int, shanten: int) -> bool {
    forall|tid: int|
        0 <= tid < 34 && w[tid] > 0 ==> h[tid] < 255 && -128 <= #[trigger] draw_after(h, tid, m) - shanten
            <= 127
}

/// The sum of the first `n` counts.
pub open spec fn count_sum(c: Seq<u8>, n: int) -> int
    decreases n,
{
    if n <= 0 {
        0
    } else {
        count_sum(c, n - 1) + c[n - 1]
    }
}

proof fn lemma_count_sum_mono(c: Seq<u8>, i: int, j: int)
    requires
        0 <= i <= j,
    ensures
        count_sum(c, i) <= count_sum(c, j),
    decreases j - i,
{
    if i < j {
        lemma_count_sum_mono(c, i, j - 1);
    }
}

/// The tile id that a discard of kind `tid` gives: the red five when the
/// hand holds it and it is the last five of its suit.
pub open spec fn discard_tile_id(m: StateModel, tid: int) -> int {
    if tid == 4 && m.1[0] && m.0[tid] == 1 {
        34
    } else if tid == 13 && m.1[1] && m.0[tid] == 1 {
        35
    } else if tid == 22 && m.1[2] && m.0[tid] == 1 {
        36
    } else {
        tid
    }
}

/// The discard candidates among kinds `0..n`: one per kind in hand, with the
/// change of the shanten number that discarding it brings.
pub open spec fn discard_list(m: StateModel, shanten: int, len_div3: int, n: int) -> Seq<(int, int)>
    decreases n,
{
    if n <= 0 {
        Seq::empty()
    } else {
        let tid = n - 1;
        let prev = discard_list(m, shanten, len_div3, n - 1);
        if m.0[tid] == 0 {
            prev
        } else {
            prev.push((discard_tile_id(m, tid), discard_after(m.0, tid, len_div3) - shanten))
        }
    }
}

/// The draw candidates among kinds `0..n`: every kind left in the wall,
/// with the red five listed apart while it is in the wall.
pub open spec fn draw_list(m: StateModel, shanten: int, len_div3: int, n: int) -> Seq<(int, int, int)>
    decreases n,
{
    if n <= 0 {
        Seq::empty()
    } else {
        let tid = n - 1;
        let prev = draw_list(m, shanten, len_div3, n - 1);
        let count = m.2[tid] as int;
        if count == 0 {
            prev
        } else {
            let diff = draw_after(m.0, tid, len_div3) - shanten;
            let aka_in_wall = (tid == 4 && m.3[0]) || (tid == 13 && m.3[1]) || (tid == 22 && m.3[2]);
            if aka_in_wall {
                let plain = if count >= 2 { prev.push((tid, count - 1, diff)) } else { prev };
                plain.push((spec_akaize(tid), 1, diff))
            } else {
                prev.push((tid, count, diff))
            }
        }
    }
}

/// The kinds among `0..n` left in the wall whose draw lowers the shanten
/// number of the hand, with how many are left.
pub open spec fn required_list(m: StateModel, shanten: int, len_div3: int, n: int) -> Seq<(int, int)>
    decreases n,
{
    if n <= 0 {
        Seq::empty()
    } else {
        let tid = n - 1;
        let prev = required_list(m, shanten, len_div3, n - 1);
        if m.2[tid] > 0 && draw_after(m.0, tid, len_div3) < shanten {
            prev.push((tid, m.2[tid] as int))
        } else {
            prev
        }
    }
}

proof fn lemma_discard_list_len(m: StateModel, shanten: int, len_div3: int, n: int)
    requires
        0 <= n,
    ensures
        discard_list(m, shanten, len_div3, n).len() == kinds_with(m.0, n, 1),
    decreases n,
{
    if n > 0 {
        lemma_discard_list_len(m, shanten, len_div3, n - 1);
    }
}

proof fn lemma_kinds_mono(h: Seq<u8>, i: int, j: int)
    requires
        0 <= i <= j,
    ensures
        kinds_with(h, i, 1) <= kinds_with(h, j, 1),
    decreases j - i,
{
    if i < j {
        lemma_kinds_mono(h, i, j - 1);
    }
}

proof fn lemma_draw_list_len(m: StateModel, shanten: int, len_div3: int, n: int)
    requires
        0 <= n,
    ensures
        discard_list(m, shanten, len_div3, n).len() <= n,
        draw_list(m, shanten, len_div3, n).len() <= n + if n > 22 { 3int } else if n > 13 { 2int } else if n > 4 { 1int } else { 0int },
        required_list(m, shanten, len_div3, n).len() <= n,
    decreases n,
{
    if n > 0 {
        lemma_draw_list_len(m, shanten, len_div3, n - 1);
    }
}

impl State {
    /// The number of tiles left in the wall.
    pub fn sum_left_tiles(&self) -> (r: u8)
        requires
            count_sum(self.tiles_in_wall@, 34) <= 255,
        ensures
            r == count_sum(self.tiles_in_wall@, 34),
    {
        let mut sum: u8 = 0;
        let mut i: usize = 0;
        while i < 34
            invariant
                i <= 34,
                count_sum(self.tiles_in_wall@, 34) <= 255,
                sum == count_sum(self.tiles_in_wall@, i as int),
            decreases 34 - i,
        {
            proof {
                lemma_count_sum_mono(self.tiles_in_wall@, i as int + 1, 34);
            }
            sum = sum + self.tiles_in_wall[i];
            i += 1;
        }
        sum
    }

    /// Every kind in hand as a discard candidate, with the change of the
    /// shanten number from `shanten`.
    pub fn get_discard_tiles(&self, shanten: i8, tehai_len_div3: u8) -> (r: ArrayVec<[DiscardTile; 14]>)
        requires
            tehai_len_div3 <= 4,
            kinds_with(self.tehai@, 34, 1) <= 14,
            discard_diffs_fit(self.tehai@, tehai_len_div3 as int, shanten as int),
        ensures
            discard_items(r) == discard_list(self.model(), shanten as int, tehai_len_div3 as int, 34),
    {
        let mut discard_tiles = discard_vec_new();
        let mut tehai = self.tehai;
        let mut tid: usize = 0;
        while tid < 34
            invariant
                tid <= 34,
                tehai_len_div3 <= 4,
                tehai@ == self.tehai@,
                kinds_with(self.tehai@, 34, 1) <= 14,
                discard_diffs_fit(self.tehai@, tehai_len_div3 as int, shanten as int),
                discard_items(discard_tiles) == discard_list(self.model(), shanten as int, tehai_len_div3 as int, tid as int),
            decreases 34 - tid,
        {
            if tehai[tid] != 0 {
                proof {
                    lemma_discard_list_len(self.model(), shanten as int, tehai_len_div3 as int, tid as int);
                    lemma_kinds_mono(self.tehai@, tid as int + 1, 34);
                }
                tehai[tid] = tehai[tid] - 1;
                let shanten_after = calc_all(&tehai, tehai_len_div3);
                proof {
                    assert(shanten_after == discard_after(self.tehai@, tid as int, tehai_len_div3 as int));
                }
                tehai[tid] = tehai[tid] + 1;
                proof {
                    assert(tehai@ =~= self.tehai@);
                }
                let shanten_diff = shanten_after - shanten;
                let tile = if tid == 4 && self.akas_in_hand[0] && tehai[tid] == 1 {
                    Tile::new(34)
                } else if tid == 13 && self.akas_in_hand[1] && tehai[tid] == 1 {
                    Tile::new(35)
                } else if tid == 22 && self.akas_in_hand[2] && tehai[tid] == 1 {
                    Tile::new(36)
                } else {
                    Tile::new(tid as u8)
                };
                discard_vec_push(&mut discard_tiles, DiscardTile { tile, shanten_diff });
            }
            tid += 1;
        }
        discard_tiles
    }

    /// Every kind left in the wall as a draw candidate, with the change of
    /// the shanten number from `shanten`; a red five in the wall is listed
    /// apart from the plain fives.
    pub fn get_draw_tiles(&self, shanten: i8, tehai_len_div3: u8) -> (r: ArrayVec<[DrawTile; 37]>)
        requires
            tehai_len_div3 <= 4,
            draw_diffs_fit(self.tehai@, self.tiles_in_wall@, tehai_len_div3 as int, shanten as int),
        ensures
            draw_items(r) == draw_list(self.model(), shanten as int, tehai_len_div3 as int, 34),
    {
        let mut draw_tiles = draw_vec_new();
        let mut tehai = self.tehai;
        let mut tid: usize = 0;
        while tid < 34
            invariant
                tid <= 34,
                tehai_len_div3 <= 4,
                tehai@ == self.tehai@,
                draw_diffs_fit(self.tehai@, self.tiles_in_wall@, tehai_len_div3 as int, shanten as int),
                draw_items(draw_tiles) == draw_list(self.model(), shanten as int, tehai_len_div3 as int, tid as int),
            decreases 34 - tid,
        {
            let count = self.tiles_in_wall[tid];
            if count != 0 {
                proof {
                    lemma_draw_list_len(self.model(), shanten as int, tehai_len_div3 as int, tid as int);
                    let _ = draw_after(self.tehai@, tid as int, tehai_len_div3 as int);
                }
                tehai[tid] = tehai[tid] + 1;
                let shanten_after = calc_all(&tehai, tehai_len_div3);
                proof {
                    assert(shanten_after == draw_after(self.tehai@, tid as int, tehai_len_div3 as int));
                }
                tehai[tid] = tehai[tid] - 1;
                proof {
                    assert(tehai@ =~= self.tehai@);
                }
                let shanten_diff = shanten_after - shanten;
                let tile = Tile::new(tid as u8);
                if (tid == 4 && self.akas_in_wall[0]) || (tid == 13 && self.akas_in_wall[1]) || (tid == 22
                    && self.akas_in_wall[2]) {
                    if count >= 2 {
                        draw_vec_push(&mut draw_tiles, DrawTile { tile, count: count - 1, shanten_diff });
                    }
                    draw_vec_push(&mut draw_tiles, DrawTile { tile: tile.akaize(), count: 1, shanten_diff });
                } else {
                    draw_vec_push(&mut draw_tiles, DrawTile { tile, count, shanten_diff });
                }
            }
            tid += 1;
        }
        draw_tiles
    }

    /// The kinds left in the wall whose draw lowers the shanten number of the
    /// hand.
    pub fn get_required_tiles(&self, tehai_len_div3: u8) -> (r: ArrayVec<[RequiredTile; 34]>)
        requires
            tehai_len_div3 <= 4,
            forall|tid: int| 0 <= tid < 34 && self.tiles_in_wall@[tid] > 0 ==> self.tehai@[tid] < 255,
        ensures
            required_items(r) == required_list(
                self.model(),
                sp_shanten(self.tehai@, tehai_len_div3 as int),
                tehai_len_div3 as int,
                34,
            ),
    {
        let mut tehai = self.tehai;
        let shanten = calc_all(&tehai, tehai_len_div3);
        let mut required_tiles = required_vec_new();
        let mut tid: usize = 0;
        while tid < 34
            invariant
                tid <= 34,
                tehai_len_div3 <= 4,
                tehai@ == self.tehai@,
                shanten == sp_shanten(self.tehai@, tehai_len_div3 as int),
                forall|t: int| 0 <= t < 34 && self.tiles_in_wall@[t] > 0 ==> self.tehai@[t] < 255,
                required_items(required_tiles) == required_list(self.model(), shanten as int, tehai_len_div3 as int, tid as int),
            decreases 34 - tid,
        {
            let count = self.tiles_in_wall[tid];
            if count != 0 {
                proof {
                    lemma_draw_list_len(self.model(), shanten as int, tehai_len_div3 as int, tid as int);
                }
                tehai[tid] = tehai[tid] + 1;
                let shanten_after = calc_all(&tehai, tehai_len_div3);
                proof {
                    assert(shanten_after == draw_after(self.tehai@, tid as int, tehai_len_div3 as int));
                }
                tehai[tid] = tehai[tid] - 1;
                proof {
                    assert(tehai@ =~= self.tehai@);
                }
                if shanten_after < shanten {
                    required_vec_push(&mut required_tiles, RequiredTile { tile: Tile::new(tid as u8), count });
                }
            }
            tid += 1;
        }
        required_tiles
    }
}

/// Every discard candidate among kinds `0..n` is a tile the hand holds, in
/// increasing kind order: a red five only when the hand holds the red five
/// as the only five of its suit, the plain kind otherwise.
pub proof fn lemma_discard_candidates_held(m: StateModel, shanten: int, len_div3: int, n: int)
    requires
        m.0.len() == 34,
        m.1.len() == 3,
        0 <= n <= 34,
    ensures
        ({
            let l = discard_list(m, shanten, len_div3, n);
            &&& forall|j: int| 0 <= j < l.len() ==> can_take(m.0, m.1, #[trigger] l[j].0)
            &&& forall|j: int| 0 <= j < l.len() ==> spec_deaka(#[trigger] l[j].0) < n
            &&& forall|j: int|
                0 <= j < l.len() ==> (spec_is_aka(#[trigger] l[j].0) <==> (spec_deaka(l[j].0) % 9 == 4
                    && spec_deaka(l[j].0) < 27 && m.1[spec_deaka(l[j].0) / 9] && m.0[spec_deaka(l[j].0)] == 1))
            &&& forall|i: int, j: int|
                0 <= i < j < l.len() ==> spec_deaka(#[trigger] l[i].0) < spec_deaka(#[trigger] l[j].0)
            &&& forall|t: int| 0 <= t < n && m.0[t] > 0 ==> exists|j: int| 0 <= j < l.len() && spec_deaka(#[trigger] l[j].0) == t
        }),
    decreases n,
{
    if n > 0 {
        lemma_discard_candidates_held(m, shanten, len_div3, n - 1);
        let prev = discard_list(m, shanten, len_div3, n - 1);
        let l = discard_list(m, shanten, len_div3, n);
        let tid = n - 1;
        if m.0[tid] != 0 {
            let id = discard_tile_id(m, tid);
            assert(l[l.len() - 1].0 == id);
            assert(spec_deaka(id) == tid);
            assert forall|j: int| 0 <= j < l.len() implies can_take(m.0, m.1, #[trigger] l[j].0) by {
                if j < prev.len() {
                    assert(l[j] == prev[j]);
                }
            }
            assert forall|t: int| 0 <= t < n && m.0[t] > 0 implies exists|j: int|
                0 <= j < l.len() && spec_deaka(#[trigger] l[j].0) == t by {
                if t < tid {
                    let j = choose|j: int| 0 <= j < prev.len() && spec_deaka(#[trigger] prev[j].0) == t;
                    assert(l[j] == prev[j]);
                } else {
                    assert(spec_deaka(l[l.len() - 1].0) == t);
                }
            }
        }
    }
}

} // verus!
