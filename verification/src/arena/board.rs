//! The wall of a kyoku, built from a game seed.

use crate::tile::{spec_akaize, Tile};
use rand::seq::SliceRandom;
use rand::SeedableRng;
use rand_chacha::ChaCha12Rng;
use sha3::{Digest, Sha3_256};
use vstd::prelude::*;

verus! {

/// SHA3-256 of `data`.
pub uninterp spec fn spec_sha3_256(data: Seq<u8>) -> Seq<u8>;

/// The order that `SliceRandom::shuffle` gives `tiles` (as tile ids) when
/// driven by a `ChaCha12Rng` seeded with `seed`.
pub uninterp spec fn spec_seeded_shuffle(seed: Seq<u8>, tiles: Seq<int>) -> Seq<int>;

/// `sha3::Sha3_256::digest`: the SHA3-256 hash of `data`, 32 bytes that only
/// depend on `data`.
#[verifier::external_body]
fn sha3_256(data: &[u8]) -> (r: [u8; 32])
    ensures
        r@ == spec_sha3_256(data@),
{
    Sha3_256::digest(data).into()
}

/// `SliceRandom::shuffle` of rand with a `ChaCha12Rng` made by `from_seed`:
/// a permutation of `tiles` that only depends on `seed` and `tiles`.
#[verifier::external_body]
fn shuffle_seeded(tiles: &mut [Tile; 136], seed: [u8; 32])
    ensures
        final(tiles)@.map_values(|t: Tile| t.id()) == spec_seeded_shuffle(
            seed@,
            old(tiles)@.map_values(|t: Tile| t.id()),
        ),
        final(tiles)@.map_values(|t: Tile| t.id()).to_multiset() =~= old(tiles)@.map_values(
            |t: Tile| t.id(),
        ).to_multiset(),
{
    let mut rng = ChaCha12Rng::from_seed(seed);
    tiles.shuffle(&mut rng);
}

/// The tiles of a kyoku: the hands, the wall and the dead wall.
#[derive(Debug, Default)]
pub struct Board {
    /// Counts from 0.
    pub kyoku: u8,
    pub honba: u8,
    /// Does not affect the kyoku seed.
    pub kyotaku: u8,
    pub scores: [i32; 4],
    pub haipai: [[Tile; 13]; 4],
    /// Goes backward (pop).
    pub yama: Vec<Tile>,
    /// Goes backward (pop).
    pub rinshan: Vec<Tile>,
    /// Goes backward (pop).
    pub dora_indicators: Vec<Tile>,
    /// Goes forward (iter).
    pub ura_indicators: Vec<Tile>,
}

/// Tile `i` of the sorted set of 136: four of each kind in id order, the
/// first five of each suit being red.
pub open spec fn unshuffled_id(i: int) -> int {
    let tid = i / 4;
    if i % 4 == 0 && (tid == 4 || tid == 13 || tid == 22) {
        spec_akaize(tid)
    } else {
        tid
    }
}

pub open spec fn ids(v: Seq<Tile>) -> Seq<int> {
    v.map_values(|t: Tile| t.id())
}

/// The bytes hashed into a kyoku's seed.
pub open spec fn seed_input(nonce: u64, key: u64, kyoku: u8, honba: u8) -> Seq<u8> {
    vstd::bytes::spec_u64_to_le_bytes(nonce) + vstd::bytes::spec_u64_to_le_bytes(key) + seq![kyoku, honba]
}

/// The shuffled 136 tiles of a kyoku.
pub open spec fn kyoku_wall(game_seed: (u64, u64), kyoku: u8, honba: u8) -> Seq<int> {
    spec_seeded_shuffle(
        spec_sha3_256(seed_input(game_seed.0, game_seed.1, kyoku, honba)),
        Seq::new(136, |i: int| unshuffled_id(i)),
    )
}

/// All tiles of a board in dealing order: the hands, the rinshan tiles,
/// the dora and ura indicators, then the live wall.
pub open spec fn board_tiles(b: Board) -> Seq<int> {
    ids(b.haipai@[0]@) + ids(b.haipai@[1]@) + ids(b.haipai@[2]@) + ids(b.haipai@[3]@) + ids(b.rinshan@)
        + ids(b.dora_indicators@) + ids(b.ura_indicators@) + ids(b.yama@)
}

/// The 136 tiles in sorted order.
fn unshuffled() -> (r: [Tile; 136])
    ensures
        ids(r@) == Seq::new(136, |i: int| unshuffled_id(i)),
{
    let mut seq: [Tile; 136] = [Tile::new(0); 136];
    let mut i: usize = 0;
    while i < 136
        invariant
            i <= 136,
            forall|j: int| 0 <= j < i ==> #[trigger] seq@[j].id() == unshuffled_id(j),
        decreases 136 - i,
    {
        let tid = (i / 4) as u8;
        let t = if i % 4 == 0 && (tid == 4 || tid == 13 || tid == 22) {
            Tile::new(tid).akaize()
        } else {
            Tile::new(tid)
        };
        seq[i] = t;
        i += 1;
    }
    proof {
        assert(ids(seq@) =~= Seq::new(136, |i: int| unshuffled_id(i)));
    }
    seq
}

fn copy_range(seq: &[Tile; 136], start: usize, len: usize) -> (r: Vec<Tile>)
    requires
        start + len <= 136,
    ensures
        r@ == seq@.subrange(start as int, start + len),
{
    let mut v: Vec<Tile> = Vec::new();
    let mut i: usize = 0;
    while i < len
        invariant
            i <= len,
            start + len <= 136,
            v@ == seq@.subrange(start as int, start + i),
        decreases len - i,
    {
        v.push(seq[start + i]);
        proof {
            assert(v@ =~= seq@.subrange(start as int, start + i + 1));
        }
        i += 1;
    }
    v
}

fn copy_hand(seq: &[Tile; 136], start: usize) -> (r: [Tile; 13])
    requires
        start + 13 <= 136,
    ensures
        r@ == seq@.subrange(start as int, start + 13),
{
    let mut h: [Tile; 13] = [Tile::new(0); 13];
    let mut i: usize = 0;
    while i < 13
        invariant
            i <= 13,
            start + 13 <= 136,
            forall|j: int| 0 <= j < i ==> #[trigger] h@[j] == seq@[start + j],
        decreases 13 - i,
    {
        h[i] = seq[start + i];
        i += 1;
    }
    proof {
        assert(h@ =~= seq@.subrange(start as int, start + 13));
    }
    h
}

impl Board {
    /// Cuts a shuffled wall of 136 tiles into the kyoku's tiles: tiles
    /// 0..52 are the four hands of 13, in seat order; 52..56 the rinshan
    /// tiles; 56..61 the dora indicators; 61..66 the ura indicators; and
    /// 66..136 the live wall. Kyoku, honba, kyotaku and scores are kept.
    pub fn deal_from_wall(&mut self, wall: &[Tile; 136])
        ensures
            final(self).kyoku == old(self).kyoku,
            final(self).honba == old(self).honba,
            final(self).kyotaku == old(self).kyotaku,
            final(self).scores == old(self).scores,
            forall|i: int| 0 <= i < 4 ==> (#[trigger] final(self).haipai@[i])@ == wall@.subrange(i * 13, i * 13 + 13),
            final(self).rinshan@ == wall@.subrange(52, 56),
            final(self).dora_indicators@ == wall@.subrange(56, 61),
            final(self).ura_indicators@ == wall@.subrange(61, 66),
            final(self).yama@ == wall@.subrange(66, 136),
            board_tiles(*final(self)) == ids(wall@),
    {
        self.haipai = [copy_hand(wall, 0), copy_hand(wall, 13), copy_hand(wall, 26), copy_hand(wall, 39)];
        self.rinshan = copy_range(wall, 52, 4);
        self.dora_indicators = copy_range(wall, 56, 5);
        self.ura_indicators = copy_range(wall, 61, 5);
        self.yama = copy_range(wall, 66, 70);
        proof {
            let w = ids(wall@);
            assert forall|i: int| 0 <= i < 4 implies ids(#[trigger] self.haipai@[i]@) == w.subrange(i * 13, i * 13 + 13) by {
                assert(ids(wall@.subrange(i * 13, i * 13 + 13)) =~= w.subrange(i * 13, i * 13 + 13));
            }
            assert(ids(wall@.subrange(52, 56)) =~= w.subrange(52, 56));
            assert(ids(wall@.subrange(56, 61)) =~= w.subrange(56, 61));
            assert(ids(wall@.subrange(61, 66)) =~= w.subrange(61, 66));
            assert(ids(wall@.subrange(66, 136)) =~= w.subrange(66, 136));
            assert(board_tiles(*self) =~= w);
        }
    }

    /// Deals the kyoku from `game_seed` = (nonce, key): the 136 tiles are
    /// shuffled with a seed hashed from the game seed, `kyoku` and `honba`,
    /// then cut into the four hands, the rinshan tiles, the dora and ura
    /// indicators and the live wall, in that order.
    pub fn init_from_seed(&mut self, game_seed: (u64, u64))
        ensures
            final(self).kyoku == old(self).kyoku,
            final(self).honba == old(self).honba,
            final(self).kyotaku == old(self).kyotaku,
            final(self).scores == old(self).scores,
            forall|i: int| 0 <= i < 4 ==> ids(#[trigger] final(self).haipai@[i]@) == kyoku_wall(
                game_seed,
                old(self).kyoku,
                old(self).honba,
            ).subrange(i * 13, i * 13 + 13),
            ids(final(self).rinshan@) == kyoku_wall(game_seed, old(self).kyoku, old(self).honba).subrange(52, 56),
            ids(final(self).dora_indicators@) == kyoku_wall(game_seed, old(self).kyoku, old(self).honba).subrange(56, 61),
            ids(final(self).ura_indicators@) == kyoku_wall(game_seed, old(self).kyoku, old(self).honba).subrange(61, 66),
            ids(final(self).yama@) == kyoku_wall(game_seed, old(self).kyoku, old(self).honba).subrange(66, 136),
            board_tiles(*final(self)).to_multiset() == Seq::new(136, |i: int| unshuffled_id(i)).to_multiset(),
    {
        let (nonce, key) = game_seed;
        let mut data = vstd::bytes::u64_to_le_bytes(nonce);
        let key_bytes = vstd::bytes::u64_to_le_bytes(key);
        let mut i: usize = 0;
        while i < 8
            invariant
                i <= 8,
                key_bytes@.len() == 8,
                data@ == vstd::bytes::spec_u64_to_le_bytes(nonce) + key_bytes@.subrange(0, i as int),
            decreases 8 - i,
        {
            data.push(key_bytes[i]);
            proof {
                assert(data@ =~= vstd::bytes::spec_u64_to_le_bytes(nonce) + key_bytes@.subrange(0, i + 1));
            }
            i += 1;
        }
        data.push(self.kyoku);
        data.push(self.honba);
        proof {
            assert(key_bytes@.subrange(0, 8) =~= key_bytes@);
            assert(data@ =~= seed_input(nonce, key, self.kyoku, self.honba));
        }
        let kyoku_seed = sha3_256(data.as_slice());
        let mut seq = unshuffled();
        shuffle_seeded(&mut seq, kyoku_seed);
        let ghost wall = ids(seq@);
        proof {
            assert(wall == kyoku_wall(game_seed, self.kyoku, self.honba));
        }
        self.deal_from_wall(&seq);
        proof {
            assert forall|i: int| 0 <= i < 4 implies ids(#[trigger] self.haipai@[i]@) == wall.subrange(i * 13, i * 13 + 13) by {
                assert(ids(seq@.subrange(i * 13, i * 13 + 13)) =~= wall.subrange(i * 13, i * 13 + 13));
            }
            assert(ids(seq@.subrange(52, 56)) =~= wall.subrange(52, 56));
            assert(ids(seq@.subrange(56, 61)) =~= wall.subrange(56, 61));
            assert(ids(seq@.subrange(61, 66)) =~= wall.subrange(61, 66));
            assert(ids(seq@.subrange(66, 136)) =~= wall.subrange(66, 136));
        }
    }
}

} // verus!
