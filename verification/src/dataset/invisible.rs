//! The tiles hidden from every player during a kyoku, read back from a
//! game log: the live wall in drawing order, the rinshan tiles, and the dora
//! and ura indicators.

use crate::arena::board::{ids, kyoku_wall, Board};
use crate::mjai::event::Event;
use crate::tile::Tile;
use rand::seq::SliceRandom;
use rand::thread_rng;
use vstd::prelude::*;

verus! {

/// The hidden tiles of one kyoku; every field is sorted early to late.
pub struct Invisible {
    pub yama: Vec<Tile>,
    pub rinshan: Vec<Tile>,
    pub dora_indicators: Vec<Tile>,
    pub ura_indicators: Vec<Tile>,
}

/// The four fields as tile ids.
pub type Parts = (Seq<int>, Seq<int>, Seq<int>, Seq<int>);

pub open spec fn parts_of(inv: Invisible) -> Parts {
    (ids(inv.yama@), ids(inv.rinshan@), ids(inv.dora_indicators@), ids(inv.ura_indicators@))
}

pub open spec fn no_parts() -> Parts {
    (Seq::empty(), Seq::empty(), Seq::empty(), Seq::empty())
}

/// What the scan holds of a finished kyoku: whether it came from the seed,
/// the tiles known, and how many of each tile id were never seen.
pub type KyokuSeen = (bool, Parts, Seq<int>);

/// The scan of a log: the finished kyokus, the tiles known of the current
/// one, the game seed, whether the next draw comes from the rinshan tiles,
/// whether the ura indicators are known, the unseen counts, and whether the
/// log has stayed readable.
pub type Scan = (Seq<KyokuSeen>, Parts, Option<(u64, u64)>, bool, bool, Seq<int>, bool);

/// Four of each tile, the plain fives less their red one.
pub open spec fn full_counts() -> Seq<int> {
    Seq::new(37, |i: int| if i == 4 || i == 13 || i == 22 { 3 } else if i >= 34 { 1 } else { 4 })
}

/// Seeing one tile: its count drops by one; a tile outside the 37 ids or
/// whose count is already zero makes the log unreadable.
pub open spec fn see(unk: Seq<int>, id: int) -> (Seq<int>, bool) {
    if 0 <= id < 37 && unk[id] > 0 {
        (unk.update(id, unk[id] - 1), true)
    } else {
        (unk, false)
    }
}

/// Seeing the tiles `ts` one after the other.
pub open spec fn see_all(unk: Seq<int>, ts: Seq<int>) -> (Seq<int>, bool)
    decreases ts.len(),
{
    if ts.len() == 0 {
        (unk, true)
    } else {
        let (u, ok) = see_all(unk, ts.drop_last());
        if ok {
            see(u, ts.last())
        } else {
            (u, false)
        }
    }
}

pub open spec fn hands(tehais: [[Tile; 13]; 4]) -> Seq<int> {
    ids(tehais@[0]@) + ids(tehais@[1]@) + ids(tehais@[2]@) + ids(tehais@[3]@)
}

pub open spec fn count_sum(c: Seq<int>, n: int) -> int
    decreases n,
{
    if n <= 0 {
        0
    } else {
        count_sum(c, n - 1) + c[n - 1]
    }
}

pub open spec fn shortfall(len: int, target: int) -> int {
    if len < target { target - len } else { 0 }
}

/// The tiles still missing from the known parts: the wall has 70 tiles,
/// the rinshan 4, and there are 5 dora and 5 ura indicators.
pub open spec fn missing(p: Parts) -> int {
    shortfall(p.0.len() as int, 70) + shortfall(p.1.len() as int, 4) + shortfall(p.2.len() as int, 5)
        + shortfall(p.3.len() as int, 5)
}

/// The hidden tiles of a kyoku dealt from `seed`, in the order they are
/// used: the wall and the rinshan and dora indicators reversed, as the
/// board takes them from the end.
pub open spec fn seeded_parts(seed: (u64, u64), kyoku: u8, honba: u8) -> Parts {
    let w = kyoku_wall(seed, kyoku, honba);
    (w.subrange(66, 136).reverse(), w.subrange(52, 56).reverse(), w.subrange(56, 61).reverse(), w.subrange(61, 66))
}

/// The board kyoku of a kyoku start: the round times four plus the kyoku.
pub open spec fn board_kyoku(bakaze: int, kyoku: int) -> int {
    4 * (bakaze - 27) + kyoku - 1
}

/// One event of the scan.
pub open spec fn scan_step(st: Scan, ev: Event, trust_seed: bool) -> Scan {
    let (ks, cur, seed0, fr, ur, unk, ok) = st;
    let seed = match ev {
        Event::StartGame { seed: Some(g), .. } => if trust_seed {
            Some(g)
        } else {
            seed0
        },
        _ => seed0,
    };
    if !ok {
        st
    } else {
        match ev {
            Event::StartKyoku { bakaze, kyoku, honba, dora_marker, tehais, .. } => match seed {
                Some(g) => {
                    let k = board_kyoku(bakaze.id(), kyoku as int);
                    (
                        ks.push((true, seeded_parts(g, k as u8, honba), Seq::empty())),
                        no_parts(),
                        seed,
                        fr,
                        ur,
                        unk,
                        bakaze.id() >= 27 && 0 <= k <= 254,
                    )
                },
                None => {
                    let (u1, ok1) = see(unk, dora_marker.id());
                    let (u2, ok2) = see_all(u1, hands(tehais));
                    ((ks, (cur.0, cur.1, cur.2.push(dora_marker.id()), cur.3), seed, fr, ur, u2, ok1 && ok2))
                },
            },
            _ => if seed is Some {
                (ks, cur, seed, fr, ur, unk, ok)
            } else {
                match ev {
                    Event::Tsumo { pai, .. } => {
                        let (u1, ok1) = see(unk, pai.id());
                        if fr {
                            (ks, (cur.0, cur.1.push(pai.id()), cur.2, cur.3), seed, false, ur, u1, ok1)
                        } else {
                            (
                                ks,
                                (cur.0.push(pai.id()), cur.1, cur.2, cur.3),
                                seed,
                                fr,
                                ur,
                                u1,
                                ok1 && cur.0.len() + 1 <= 70,
                            )
                        }
                    },
                    Event::Ankan { .. } | Event::Kakan { .. } | Event::Daiminkan { .. } => (
                        ks,
                        cur,
                        seed,
                        true,
                        ur,
                        unk,
                        ok,
                    ),
                    Event::Dora { dora_marker } => {
                        let (u1, ok1) = see(unk, dora_marker.id());
                        (ks, (cur.0, cur.1, cur.2.push(dora_marker.id()), cur.3), seed, fr, ur, u1, ok1)
                    },
                    Event::Hora { ura_markers: Some(ura), .. } => if !ur {
                        let (u1, ok1) = see_all(unk, ids(ura@));
                        (ks, (cur.0, cur.1, cur.2, cur.3 + ids(ura@)), seed, fr, true, u1, ok1)
                    } else {
                        (ks, cur, seed, fr, ur, unk, ok)
                    },
                    Event::EndKyoku => (
                        ks.push((false, cur, unk)),
                        no_parts(),
                        seed,
                        false,
                        false,
                        full_counts(),
                        count_sum(unk, 37) == missing(cur),
                    ),
                    _ => (ks, cur, seed, fr, ur, unk, ok),
                }
            },
        }
    }
}

/// The scan of `events[..n]`.
pub open spec fn scan_upto(events: Seq<Event>, trust_seed: bool, n: int) -> Scan
    decreases n,
{
    if n <= 0 {
        (Seq::empty(), no_parts(), None, false, false, full_counts(), true)
    } else {
        scan_step(scan_upto(events, trust_seed, n - 1), events[n - 1], trust_seed)
    }
}

/// The log can be read to its end.
pub open spec fn readable(events: Seq<Event>, trust_seed: bool) -> bool {
    scan_upto(events, trust_seed, events.len() as int).6
}

/// The count of tile id `t` among the unseen counts.
pub open spec fn unseen_count(unk: Seq<int>, t: int) -> int {
    if 0 <= t < 37 { unk[t] } else { 0 }
}

pub open spec fn extends(full: Seq<int>, known: Seq<int>, target: int) -> bool {
    &&& full.len() == if known.len() < target { target } else { known.len() as int }
    &&& full.subrange(0, known.len() as int) == known
}

/// The tiles that filling added to the known parts.
pub open spec fn added(q: Parts, p: Parts) -> Seq<int> {
    q.0.skip(p.0.len() as int) + q.1.skip(p.1.len() as int) + q.2.skip(p.2.len() as int) + q.3.skip(
        p.3.len() as int,
    )
}

/// `inv` is what the scan gives for kyoku `k`: the seeded tiles as dealt,
/// or the known tiles completed with exactly the unseen tiles in some order.
pub open spec fn gives(inv: Invisible, k: KyokuSeen) -> bool {
    let q = parts_of(inv);
    let (seeded, p, unk) = k;
    if seeded {
        q == p
    } else {
        &&& extends(q.0, p.0, 70)
        &&& extends(q.1, p.1, 4)
        &&& extends(q.2, p.2, 5)
        &&& extends(q.3, p.3, 5)
        &&& forall|t: int| #[trigger] added(q, p).to_multiset().count(t) == unseen_count(unk, t)
    }
}

pub open spec fn counts(a: Seq<u8>) -> Seq<int> {
    a.map_values(|x: u8| x as int)
}

/// `SliceRandom::shuffle` of rand driven by `thread_rng`: the same tiles in
/// an order left to chance.
#[verifier::external_body]
fn shuffle_tiles(v: &mut Vec<Tile>)
    ensures
        ids(final(v)@).to_multiset() == ids(old(v)@).to_multiset(),
{
    v.shuffle(&mut thread_rng());
}

proof fn lemma_scan_ok_prefix(events: Seq<Event>, trust_seed: bool, i: int, n: int)
    requires
        0 <= i <= n,
        scan_upto(events, trust_seed, n).6,
    ensures
        scan_upto(events, trust_seed, i).6,
    decreases n - i,
{
    if i < n {
        lemma_scan_ok_prefix(events, trust_seed, i + 1, n);
    }
}

proof fn lemma_see_all_prefix(u: Seq<int>, ts: Seq<int>, k: int)
    requires
        0 <= k <= ts.len(),
        see_all(u, ts).1,
    ensures
        see_all(u, ts.subrange(0, k)).1,
    decreases ts.len() - k,
{
    if k < ts.len() {
        assert(ts.drop_last() =~= ts.subrange(0, ts.len() - 1));
        lemma_see_all_prefix(u, ts.drop_last(), k);
        assert(ts.drop_last().subrange(0, k) =~= ts.subrange(0, k));
    } else {
        assert(ts.subrange(0, k) =~= ts);
    }
}

fn blank() -> (r: Invisible)
    ensures
        parts_of(r) == no_parts(),
{
    let r = Invisible { yama: Vec::new(), rinshan: Vec::new(), dora_indicators: Vec::new(), ura_indicators: Vec::new() };
    proof {
        assert(parts_of(r) =~= no_parts());
    }
    r
}

fn reversed(v: &Vec<Tile>) -> (r: Vec<Tile>)
    ensures
        r@ == v@.reverse(),
{
    let mut r: Vec<Tile> = Vec::new();
    let mut i = v.len();
    while i > 0
        invariant
            i <= v@.len(),
            r@ == v@.subrange(i as int, v@.len() as int).reverse(),
        decreases i,
    {
        i -= 1;
        r.push(v[i]);
        proof {
            assert(r@ =~= v@.subrange(i as int, v@.len() as int).reverse());
        }
    }
    proof {
        assert(v@.subrange(0, v@.len() as int) =~= v@);
    }
    r
}

fn see_exec(unk: &mut [u8; 37], t: Tile)
    requires
        see(counts(old(unk)@), t.id()).1,
    ensures
        counts(final(unk)@) == see(counts(old(unk)@), t.id()).0,
{
    let id = t.as_usize();
    unk[id] = unk[id] - 1;
    proof {
        assert(counts(unk@) =~= see(counts(old(unk)@), t.id()).0);
    }
}

/// Sees the tiles `ts` one after the other.
fn see_slice(unk: &mut [u8; 37], ts: &[Tile])
    requires
        see_all(counts(old(unk)@), ids(ts@)).1,
    ensures
        counts(final(unk)@) == see_all(counts(old(unk)@), ids(ts@)).0,
{
    let ghost u0 = counts(unk@);
    let mut i: usize = 0;
    while i < ts.len()
        invariant
            i <= ts@.len(),
            see_all(u0, ids(ts@)).1,
            see_all(u0, ids(ts@).subrange(0, i as int)) == (counts(unk@), true),
        decreases ts@.len() - i,
    {
        proof {
            lemma_see_all_prefix(u0, ids(ts@), i + 1);
            assert(ids(ts@).subrange(0, i + 1).drop_last() =~= ids(ts@).subrange(0, i as int));
        }
        see_exec(unk, ts[i]);
        i += 1;
    }
    proof {
        assert(ids(ts@).subrange(0, ts@.len() as int) =~= ids(ts@));
    }
}

/// Every unseen tile, in id order.
fn build_filler(unk: &[u8; 37]) -> (r: Vec<Tile>)
    ensures
        r@.len() == count_sum(counts(unk@), 37),
        forall|t: int| #[trigger] ids(r@).to_multiset().count(t) == unseen_count(counts(unk@), t),
{
    broadcast use vstd::seq_lib::group_to_multiset_ensures, vstd::multiset::group_multiset_axioms;

    let mut filler: Vec<Tile> = Vec::new();
    let mut tid: usize = 0;
    while tid < 37
        invariant
            tid <= 37,
            filler@.len() == count_sum(counts(unk@), tid as int),
            forall|t: int|
                #[trigger] ids(filler@).to_multiset().count(t) == if 0 <= t < tid {
                    unk@[t] as int
                } else {
                    0
                },
        decreases 37 - tid,
    {
        let c = unk[tid];
        let mut j: u8 = 0;
        while j < c
            invariant
                tid < 37,
                j <= c,
                c == unk@[tid as int],
                filler@.len() == count_sum(counts(unk@), tid as int) + j,
                forall|t: int|
                    #[trigger] ids(filler@).to_multiset().count(t) == if 0 <= t < tid {
                        unk@[t] as int
                    } else if t == tid {
                        j as int
                    } else {
                        0
                    },
            decreases c - j,
        {
            let ghost before = filler@;
            let x = Tile::new(tid as u8);
            filler.push(x);
            proof {
                assert(ids(filler@) =~= ids(before).push(x.id()));
                vstd::seq_lib::to_multiset_build(ids(before), x.id());
                assert(x.id() == tid as int);
                assert(ids(filler@).to_multiset() =~= ids(before).to_multiset().insert(tid as int));
                assert forall|t: int| #[trigger] ids(filler@).to_multiset().count(t) == ids(before).to_multiset().count(t)
                    + if t == tid as int { 1int } else { 0int } by {}
            }
            j += 1;
        }
        tid += 1;
    }
    filler
}

/// Moves tiles from the end of `filler` to `part` until `part` holds
/// `target` tiles.
fn fill_up(part: &mut Vec<Tile>, filler: &mut Vec<Tile>, target: usize)
    requires
        shortfall(old(part)@.len() as int, target as int) <= old(filler)@.len(),
    ensures
        ({
            let n = old(filler)@.len() as int;
            let k = shortfall(old(part)@.len() as int, target as int);
            &&& final(filler)@ == old(filler)@.subrange(0, n - k)
            &&& final(part)@ == old(part)@ + old(filler)@.subrange(n - k, n).reverse()
        }),
{
    let ghost n = filler@.len() as int;
    let ghost p0 = part@;
    let ghost f0 = filler@;
    while part.len() < target
        invariant
            p0.len() <= part@.len(),
            n == f0.len(),
            shortfall(p0.len() as int, target as int) <= n,
            part@.len() - p0.len() <= shortfall(p0.len() as int, target as int),
            part@.len() < target ==> part@.len() - p0.len() < shortfall(p0.len() as int, target as int),
            filler@ == f0.subrange(0, n - (part@.len() - p0.len())),
            part@ == p0 + f0.subrange(n - (part@.len() - p0.len()), n).reverse(),
        decreases target - part@.len(),
    {
        let ghost m = part@.len() - p0.len();
        let t = filler.pop().unwrap();
        part.push(t);
        proof {
            assert(f0.subrange(n - (m + 1), n).reverse() =~= f0.subrange(n - m, n).reverse().push(f0[n - (m + 1)]));
            assert(part@ =~= p0 + f0.subrange(n - (m + 1), n).reverse());
            assert(filler@ =~= f0.subrange(0, n - (m + 1)));
        }
    }
}

/// Completes the known tiles with `filler`, taking tiles from its end:
/// first the wall up to 70 tiles, then the rinshan tiles up to 4, the dora
/// indicators up to 5 and the ura indicators up to 5. Each part gets its
/// run of `filler` in reverse, so the last tile of `filler` comes first.
pub fn fill_parts(cur: Invisible, filler: Vec<Tile>) -> (r: Invisible)
    requires
        filler@.len() == missing(parts_of(cur)),
    ensures
        ({
            let f = filler@;
            let n = f.len() as int;
            let k0 = shortfall(cur.yama@.len() as int, 70);
            let k1 = shortfall(cur.rinshan@.len() as int, 4);
            let k2 = shortfall(cur.dora_indicators@.len() as int, 5);
            &&& r.yama@ == cur.yama@ + f.subrange(n - k0, n).reverse()
            &&& r.rinshan@ == cur.rinshan@ + f.subrange(n - k0 - k1, n - k0).reverse()
            &&& r.dora_indicators@ == cur.dora_indicators@ + f.subrange(n - k0 - k1 - k2, n - k0 - k1).reverse()
            &&& r.ura_indicators@ == cur.ura_indicators@ + f.subrange(0, n - k0 - k1 - k2).reverse()
        }),
{
    let ghost f = filler@;
    let ghost n = f.len() as int;
    let ghost k0 = shortfall(cur.yama@.len() as int, 70);
    let ghost k1 = shortfall(cur.rinshan@.len() as int, 4);
    let ghost k2 = shortfall(cur.dora_indicators@.len() as int, 5);
    let mut cur = cur;
    let mut filler = filler;
    fill_up(&mut cur.yama, &mut filler, 70);
    fill_up(&mut cur.rinshan, &mut filler, 4);
    proof {
        assert(f.subrange(0, n - k0).subrange(0, n - k0 - k1) =~= f.subrange(0, n - k0 - k1));
        assert(f.subrange(0, n - k0).subrange(n - k0 - k1, n - k0) =~= f.subrange(n - k0 - k1, n - k0));
    }
    fill_up(&mut cur.dora_indicators, &mut filler, 5);
    proof {
        assert(f.subrange(0, n - k0 - k1).subrange(0, n - k0 - k1 - k2) =~= f.subrange(0, n - k0 - k1 - k2));
        assert(f.subrange(0, n - k0 - k1).subrange(n - k0 - k1 - k2, n - k0 - k1) =~= f.subrange(
            n - k0 - k1 - k2,
            n - k0 - k1,
        ));
    }
    fill_up(&mut cur.ura_indicators, &mut filler, 5);
    proof {
        assert(f.subrange(0, n - k0 - k1 - k2).subrange(0, n - k0 - k1 - k2) =~= f.subrange(0, n - k0 - k1 - k2));
    }
    cur
}

/// Cutting the shuffled tiles from the end into four runs, each reversed,
/// keeps every tile.
proof fn lemma_fill_multiset(f: Seq<int>, k0: int, k1: int, k2: int, k3: int)
    requires
        0 <= k0 && 0 <= k1 && 0 <= k2 && 0 <= k3,
        f.len() == k0 + k1 + k2 + k3,
    ensures
        ({
            let n = f.len() as int;
            (f.subrange(n - k0, n).reverse() + f.subrange(n - k0 - k1, n - k0).reverse() + f.subrange(
                n - k0 - k1 - k2,
                n - k0 - k1,
            ).reverse() + f.subrange(0, n - k0 - k1 - k2).reverse()).to_multiset() =~= f.to_multiset()
        }),
{
    broadcast use vstd::multiset::group_multiset_axioms;

    let n = f.len() as int;
    let a0 = f.subrange(n - k0, n);
    let a1 = f.subrange(n - k0 - k1, n - k0);
    let a2 = f.subrange(n - k0 - k1 - k2, n - k0 - k1);
    let a3 = f.subrange(0, n - k0 - k1 - k2);
    a0.lemma_reverse_to_multiset();
    a1.lemma_reverse_to_multiset();
    a2.lemma_reverse_to_multiset();
    a3.lemma_reverse_to_multiset();
    vstd::seq_lib::lemma_multiset_commutative(a0.reverse(), a1.reverse());
    vstd::seq_lib::lemma_multiset_commutative(a0.reverse() + a1.reverse(), a2.reverse());
    vstd::seq_lib::lemma_multiset_commutative(a0.reverse() + a1.reverse() + a2.reverse(), a3.reverse());
    assert(f =~= a3 + a2 + a1 + a0);
    vstd::seq_lib::lemma_multiset_commutative(a3, a2);
    vstd::seq_lib::lemma_multiset_commutative(a3 + a2, a1);
    vstd::seq_lib::lemma_multiset_commutative(a3 + a2 + a1, a0);
}

proof fn lemma_ids_reversed_run(v: Seq<Tile>, a: int, b: int)
    requires
        0 <= a <= b <= v.len(),
    ensures
        ids(v.subrange(a, b).reverse()) =~= ids(v).subrange(a, b).reverse(),
{
}

proof fn lemma_extended(p: Seq<Tile>, f: Seq<Tile>, a: int, b: int, target: int)
    requires
        0 <= a <= b <= f.len(),
        b - a == shortfall(p.len() as int, target),
    ensures
        extends(ids(p + f.subrange(a, b).reverse()), ids(p), target),
        ids(p + f.subrange(a, b).reverse()).skip(p.len() as int) =~= ids(f).subrange(a, b).reverse(),
{
    let q = p + f.subrange(a, b).reverse();
    assert(ids(q).subrange(0, p.len() as int) =~= ids(p));
    assert(ids(q).skip(p.len() as int) =~= ids(f.subrange(a, b).reverse()));
    lemma_ids_reversed_run(f, a, b);
}

/// Completes the known tiles of a finished kyoku with the unseen ones in a
/// random order: the wall first, then the rinshan tiles, the dora and the
/// ura indicators.
fn fill_kyoku(cur: Invisible, unk: &[u8; 37]) -> (r: Invisible)
    requires
        count_sum(counts(unk@), 37) == missing(parts_of(cur)),
    ensures
        gives(r, (false, parts_of(cur), counts(unk@))),
{
    let mut filler = build_filler(unk);
    let ghost built = filler@;
    shuffle_tiles(&mut filler);
    let ghost f = filler@;
    proof {
        broadcast use vstd::seq_lib::group_to_multiset_ensures;

        assert(ids(built).to_multiset().len() == ids(f).to_multiset().len());
        assert(f.len() == built.len());
        assert forall|t: int| #[trigger] ids(f).to_multiset().count(t) == unseen_count(counts(unk@), t) by {
            assert(ids(built).to_multiset().count(t) == unseen_count(counts(unk@), t));
        }
    }
    let ghost n = f.len() as int;
    let ghost p = parts_of(cur);
    let ghost c0 = cur;
    let ghost k0 = shortfall(cur.yama@.len() as int, 70);
    let ghost k1 = shortfall(cur.rinshan@.len() as int, 4);
    let ghost k2 = shortfall(cur.dora_indicators@.len() as int, 5);
    let ghost k3 = shortfall(cur.ura_indicators@.len() as int, 5);
    let cur = fill_parts(cur, filler);
    proof {
        lemma_extended(c0.yama@, f, n - k0, n, 70);
        lemma_extended(c0.rinshan@, f, n - k0 - k1, n - k0, 4);
        lemma_extended(c0.dora_indicators@, f, n - k0 - k1 - k2, n - k0 - k1, 5);
        lemma_extended(c0.ura_indicators@, f, 0, n - k0 - k1 - k2, 5);
        lemma_fill_multiset(ids(f), k0, k1, k2, k3);
        let q = parts_of(cur);
        assert forall|t: int| #[trigger] added(q, p).to_multiset().count(t) == unseen_count(counts(unk@), t) by {
            assert(ids(f).to_multiset().count(t) == unseen_count(counts(unk@), t));
        }
        assert(added(q, p) =~= ids(f).subrange(n - k0, n).reverse() + ids(f).subrange(n - k0 - k1, n - k0).reverse()
            + ids(f).subrange(n - k0 - k1 - k2, n - k0 - k1).reverse() + ids(f).subrange(0, n - k0 - k1 - k2).reverse());
    }
    cur
}

proof fn lemma_see_all_append(u: Seq<int>, a: Seq<int>, b: Seq<int>)
    ensures
        see_all(u, a + b) == if see_all(u, a).1 {
            see_all(see_all(u, a).0, b)
        } else {
            (see_all(u, a).0, false)
        },
    decreases b.len(),
{
    if b.len() == 0 {
        assert(a + b =~= a);
    } else {
        assert((a + b).drop_last() =~= a + b.drop_last());
        lemma_see_all_append(u, a, b.drop_last());
    }
}

fn full_unknown() -> (r: [u8; 37])
    ensures
        counts(r@) == full_counts(),
{
    let mut r: [u8; 37] = [4; 37];
    r[4] = 3;
    r[13] = 3;
    r[22] = 3;
    r[34] = 1;
    r[35] = 1;
    r[36] = 1;
    proof {
        assert(counts(r@) =~= full_counts());
    }
    r
}

/// The hidden tiles of a kyoku dealt from the game seed.
fn seeded_board(seed: (u64, u64), kyoku: u8, honba: u8) -> (r: Invisible)
    ensures
        parts_of(r) == seeded_parts(seed, kyoku, honba),
{
    let mut board = Board {
        kyoku,
        honba,
        kyotaku: 0,
        scores: [0; 4],
        haipai: [[Tile::new(0); 13]; 4],
        yama: Vec::new(),
        rinshan: Vec::new(),
        dora_indicators: Vec::new(),
        ura_indicators: Vec::new(),
    };
    board.init_from_seed(seed);
    let r = Invisible {
        yama: reversed(&board.yama),
        rinshan: reversed(&board.rinshan),
        dora_indicators: reversed(&board.dora_indicators),
        ura_indicators: board.ura_indicators,
    };
    proof {
        assert(ids(r.yama@) =~= ids(board.yama@).reverse());
        assert(ids(r.rinshan@) =~= ids(board.rinshan@).reverse());
        assert(ids(r.dora_indicators@) =~= ids(board.dora_indicators@).reverse());
        assert(parts_of(r) =~= seeded_parts(seed, kyoku, honba));
    }
    r
}

impl Invisible {
    /// The hidden tiles of every kyoku of a game log. With `trust_seed`
    /// and a seed in the log, each kyoku is dealt again from the seed;
    /// otherwise the tiles drawn, the dora and ura indicators shown are
    /// kept in order and the tiles never seen complete them in random
    /// order.
    pub fn new(game: &[Event], trust_seed: bool) -> (r: Vec<Invisible>)
        requires
            readable(game@, trust_seed),
        ensures
            ({
                let st = scan_upto(game@, trust_seed, game@.len() as int);
                &&& r@.len() == st.0.len()
                &&& forall|k: int| 0 <= k < r@.len() ==> gives(#[trigger] r@[k], st.0[k])
            }),
    {
        let mut ret: Vec<Invisible> = Vec::new();
        let mut cur = blank();
        let mut seed: Option<(u64, u64)> = None;
        let mut from_rinshan = false;
        let mut ura_is_recorded = false;
        let mut unknown_tiles = full_unknown();
        let mut i: usize = 0;
        while i < game.len()
            invariant
                i <= game@.len(),
                readable(game@, trust_seed),
                ({
                    let st = scan_upto(game@, trust_seed, i as int);
                    &&& st.6
                    &&& ret@.len() == st.0.len()
                    &&& forall|k: int| 0 <= k < ret@.len() ==> gives(#[trigger] ret@[k], st.0[k])
                    &&& parts_of(cur) == st.1
                    &&& seed == st.2
                    &&& from_rinshan == st.3
                    &&& ura_is_recorded == st.4
                    &&& counts(unknown_tiles@) == st.5
                }),
            decreases game@.len() - i,
        {
            proof {
                lemma_scan_ok_prefix(game@, trust_seed, i + 1, game@.len() as int);
            }
            let ghost st = scan_upto(game@, trust_seed, i as int);
            let ghost next = scan_upto(game@, trust_seed, i + 1);
            let ghost old_ret = ret@;
            let ghost old_cur = parts_of(cur);
            let ev = &game[i];
            if let Event::StartGame { seed: Some(g), .. } = ev {
                if trust_seed {
                    seed = Some(*g);
                }
            }
            match ev {
                Event::StartKyoku { bakaze, kyoku, honba, dora_marker, tehais, .. } => {
                    match seed {
                        Some(g) => {
                            let k = 4 * (bakaze.as_u8() - 27) + *kyoku - 1;
                            let inv = seeded_board(g, k, *honba);
                            ret.push(inv);
                            cur = blank();
                            proof {
                                assert forall|j: int| 0 <= j < ret@.len() implies gives(#[trigger] ret@[j], next.0[j]) by {
                                    if j < old_ret.len() {
                                        assert(ret@[j] == old_ret[j]);
                                    }
                                }
                            }
                        },
                        None => {
                            cur.dora_indicators.push(*dora_marker);
                            let ghost u1 = see(st.5, dora_marker.id()).0;
                            proof {
                                lemma_see_all_append(u1, ids(tehais@[0]@), ids(tehais@[1]@));
                                lemma_see_all_append(u1, ids(tehais@[0]@) + ids(tehais@[1]@), ids(tehais@[2]@));
                                lemma_see_all_append(
                                    u1,
                                    ids(tehais@[0]@) + ids(tehais@[1]@) + ids(tehais@[2]@),
                                    ids(tehais@[3]@),
                                );
                            }
                            see_exec(&mut unknown_tiles, *dora_marker);
                            see_slice(&mut unknown_tiles, &tehais[0]);
                            see_slice(&mut unknown_tiles, &tehais[1]);
                            see_slice(&mut unknown_tiles, &tehais[2]);
                            see_slice(&mut unknown_tiles, &tehais[3]);
                            proof {
                                assert(parts_of(cur) =~= next.1);
                            }
                        },
                    }
                },
                _ => {
                    if seed.is_none() {
                        match ev {
                            Event::Tsumo { pai, .. } => {
                                if from_rinshan {
                                    cur.rinshan.push(*pai);
                                    from_rinshan = false;
                                } else {
                                    cur.yama.push(*pai);
                                }
                                see_exec(&mut unknown_tiles, *pai);
                                proof {
                                    assert(parts_of(cur) =~= next.1);
                                }
                            },
                            Event::Ankan { .. } | Event::Kakan { .. } | Event::Daiminkan { .. } => {
                                from_rinshan = true;
                            },
                            Event::Dora { dora_marker } => {
                                cur.dora_indicators.push(*dora_marker);
                                see_exec(&mut unknown_tiles, *dora_marker);
                                proof {
                                    assert(parts_of(cur) =~= next.1);
                                }
                            },
                            Event::Hora { ura_markers: Some(ura), .. } => {
                                if !ura_is_recorded {
                                    see_slice(&mut unknown_tiles, ura.as_slice());
                                    let mut j: usize = 0;
                                    let ghost c0 = cur.ura_indicators@;
                                    let ghost y0 = cur.yama@;
                                    let ghost r0 = cur.rinshan@;
                                    let ghost d0 = cur.dora_indicators@;
                                    while j < ura.len()
                                        invariant
                                            j <= ura@.len(),
                                            cur.ura_indicators@ == c0 + ura@.subrange(0, j as int),
                                            cur.yama@ == y0,
                                            cur.rinshan@ == r0,
                                            cur.dora_indicators@ == d0,
                                        decreases ura@.len() - j,
                                    {
                                        cur.ura_indicators.push(ura[j]);
                                        proof {
                                            assert(cur.ura_indicators@ =~= c0 + ura@.subrange(0, j + 1));
                                        }
                                        j += 1;
                                    }
                                    ura_is_recorded = true;
                                    proof {
                                        assert(ura@.subrange(0, ura@.len() as int) =~= ura@);
                                        assert(ids(cur.ura_indicators@) =~= ids(c0) + ids(ura@));
                                        assert(parts_of(cur) =~= next.1);
                                    }
                                }
                            },
                            Event::EndKyoku => {
                                let done = fill_kyoku(cur, &unknown_tiles);
                                ret.push(done);
                                cur = blank();
                                from_rinshan = false;
                                ura_is_recorded = false;
                                unknown_tiles = full_unknown();
                                proof {
                                    assert forall|j: int| 0 <= j < ret@.len() implies gives(#[trigger] ret@[j], next.0[j]) by {
                                        if j < old_ret.len() {
                                            assert(ret@[j] == old_ret[j]);
                                        }
                                    }
                                }
                            },
                            _ => {},
                        }
                    }
                },
            }
            i += 1;
        }
        ret
    }
}

/// Sees the tiles `ts` one after the other, if they can all be seen.
fn try_see_slice(unk: &mut [u8; 37], ts: &[Tile]) -> (ok: bool)
    ensures
        ok == see_all(counts(old(unk)@), ids(ts@)).1,
        ok ==> counts(final(unk)@) == see_all(counts(old(unk)@), ids(ts@)).0,
{
    let ghost u0 = counts(unk@);
    let mut i: usize = 0;
    while i < ts.len()
        invariant
            i <= ts@.len(),
            u0 == counts(old(unk)@),
            see_all(u0, ids(ts@).subrange(0, i as int)) == (counts(unk@), true),
        decreases ts@.len() - i,
    {
        let id = ts[i].as_usize();
        let ghost before = counts(unk@);
        proof {
            assert(ids(ts@).subrange(0, i + 1).drop_last() =~= ids(ts@).subrange(0, i as int));
            assert(ids(ts@).subrange(0, i + 1).last() == id as int);
        }
        if id >= 37 || unk[id] == 0 {
            proof {
                assert(!see(before, id as int).1);
                assert(!see_all(u0, ids(ts@).subrange(0, i + 1)).1);
                if see_all(u0, ids(ts@)).1 {
                    lemma_see_all_prefix(u0, ids(ts@), i + 1);
                }
            }
            return false;
        }
        unk[id] = unk[id] - 1;
        proof {
            assert(counts(unk@) =~= see(before, id as int).0);
        }
        i += 1;
    }
    proof {
        assert(ids(ts@).subrange(0, ts@.len() as int) =~= ids(ts@));
    }
    true
}

fn capped(n: usize) -> (r: usize)
    ensures
        r == if n < 100 { n } else { 100 },
{
    if n < 100 {
        n
    } else {
        100
    }
}

pub open spec fn cap(n: int) -> int {
    if n < 100 { n } else { 100 }
}

fn shortfall_exec(len: usize, target: usize) -> (r: usize)
    ensures
        r == shortfall(len as int, target as int),
{
    if len < target {
        target - len
    } else {
        0
    }
}

/// What the readability check keeps of the scan: whether a seed is known,
/// the rinshan and ura flags, the unseen counts and the lengths of the
/// known parts, capped at 100.
struct ReadCheck {
    seeded: bool,
    from_rinshan: bool,
    ura_is_recorded: bool,
    unknown_tiles: [u8; 37],
    lens: [usize; 4],
}

impl ReadCheck {
    spec fn models(&self, st: Scan) -> bool {
        &&& st.6
        &&& self.seeded == st.2 is Some
        &&& self.from_rinshan == st.3
        &&& self.ura_is_recorded == st.4
        &&& counts(self.unknown_tiles@) == st.5
        &&& self.lens@[0] == cap(st.1.0.len() as int)
        &&& self.lens@[1] == cap(st.1.1.len() as int)
        &&& self.lens@[2] == cap(st.1.2.len() as int)
        &&& self.lens@[3] == cap(st.1.3.len() as int)
    }

    /// Sees one tile, if it can be seen.
    fn see_one(&mut self, t: Tile) -> (ok: bool)
        ensures
            ok == see(counts(old(self).unknown_tiles@), t.id()).1,
            ok ==> counts(final(self).unknown_tiles@) == see(counts(old(self).unknown_tiles@), t.id()).0,
            final(self).seeded == old(self).seeded,
            final(self).from_rinshan == old(self).from_rinshan,
            final(self).ura_is_recorded == old(self).ura_is_recorded,
            final(self).lens == old(self).lens,
    {
        let id = t.as_usize();
        if id >= 37 || self.unknown_tiles[id] == 0 {
            return false;
        }
        self.unknown_tiles[id] = self.unknown_tiles[id] - 1;
        proof {
            assert(counts(self.unknown_tiles@) =~= see(counts(old(self).unknown_tiles@), t.id()).0);
        }
        true
    }

    /// A kyoku start without a seed.
    fn start_unseeded(&mut self, dora_marker: Tile, tehais: &[[Tile; 13]; 4]) -> (ok: bool)
        requires
            !old(self).seeded,
        ensures
            ({
                let (u1, ok1) = see(counts(old(self).unknown_tiles@), dora_marker.id());
                let (u2, ok2) = see_all(u1, hands(*tehais));
                &&& ok == (ok1 && ok2)
                &&& ok ==> counts(final(self).unknown_tiles@) == u2
            }),
            final(self).seeded == old(self).seeded,
            final(self).from_rinshan == old(self).from_rinshan,
            final(self).ura_is_recorded == old(self).ura_is_recorded,
            final(self).lens == old(self).lens,
    {
        if !self.see_one(dora_marker) {
            return false;
        }
        let ghost u1 = counts(self.unknown_tiles@);
        proof {
            lemma_see_all_append(u1, ids(tehais@[0]@), ids(tehais@[1]@));
            lemma_see_all_append(u1, ids(tehais@[0]@) + ids(tehais@[1]@), ids(tehais@[2]@));
            lemma_see_all_append(u1, ids(tehais@[0]@) + ids(tehais@[1]@) + ids(tehais@[2]@), ids(tehais@[3]@));
        }
        if !try_see_slice(&mut self.unknown_tiles, &tehais[0]) {
            return false;
        }
        if !try_see_slice(&mut self.unknown_tiles, &tehais[1]) {
            return false;
        }
        if !try_see_slice(&mut self.unknown_tiles, &tehais[2]) {
            return false;
        }
        try_see_slice(&mut self.unknown_tiles, &tehais[3])
    }

    /// The end of a kyoku: the unseen tiles must exactly complete it.
    fn end_kyoku(&mut self) -> (ok: bool)
        ensures
            ok == (count_sum(counts(old(self).unknown_tiles@), 37) == shortfall(old(self).lens@[0] as int, 70)
                + shortfall(old(self).lens@[1] as int, 4) + shortfall(old(self).lens@[2] as int, 5) + shortfall(
                old(self).lens@[3] as int,
                5,
            )),
            final(self).seeded == old(self).seeded,
            !final(self).from_rinshan,
            !final(self).ura_is_recorded,
            counts(final(self).unknown_tiles@) == full_counts(),
            final(self).lens@ == seq![0usize, 0, 0, 0],
    {
        let mut sum: usize = 0;
        let mut t: usize = 0;
        while t < 37
            invariant
                t <= 37,
                sum == count_sum(counts(self.unknown_tiles@), t as int),
                sum <= 255 * t,
            decreases 37 - t,
        {
            sum = sum + self.unknown_tiles[t] as usize;
            t += 1;
        }
        let need = shortfall_exec(self.lens[0], 70) + shortfall_exec(self.lens[1], 4) + shortfall_exec(self.lens[2], 5)
            + shortfall_exec(self.lens[3], 5);
        self.from_rinshan = false;
        self.ura_is_recorded = false;
        self.unknown_tiles = full_unknown();
        self.lens = [0; 4];
        proof {
            assert(self.lens@ =~= seq![0usize, 0, 0, 0]);
        }
        sum == need
    }

    /// One event after the kyoku start, without a seed.
    fn unseeded_event(&mut self, ev: &Event) -> (ok: bool)
        requires
            !old(self).seeded,
            forall|k: int| 0 <= k < 4 ==> #[trigger] old(self).lens@[k] <= 100,
            !(ev is StartKyoku),
        ensures
            ({
                let cur_lens = old(self).lens@;
                match *ev {
                    Event::Tsumo { pai, .. } => {
                        let (u1, ok1) = see(counts(old(self).unknown_tiles@), pai.id());
                        &&& ok == (ok1 && (old(self).from_rinshan || cur_lens[0] + 1 <= 70))
                        &&& ok ==> counts(final(self).unknown_tiles@) == u1 && final(self).ura_is_recorded
                            == old(self).ura_is_recorded && !final(self).from_rinshan && if old(self).from_rinshan {
                            final(self).lens@ == cur_lens.update(1, cap(cur_lens[1] + 1) as usize)
                        } else {
                            final(self).lens@ == cur_lens.update(0, (cur_lens[0] + 1) as usize)
                        }
                    },
                    Event::Ankan { .. } | Event::Kakan { .. } | Event::Daiminkan { .. } => ok && *final(self)
                        == ReadCheck { from_rinshan: true, ..*old(self) },
                    Event::Dora { dora_marker } => {
                        let (u1, ok1) = see(counts(old(self).unknown_tiles@), dora_marker.id());
                        &&& ok == ok1
                        &&& ok ==> counts(final(self).unknown_tiles@) == u1 && final(self).lens@ == cur_lens.update(
                            2,
                            cap(cur_lens[2] + 1) as usize,
                        ) && final(self).from_rinshan == old(self).from_rinshan && final(self).ura_is_recorded
                            == old(self).ura_is_recorded
                    },
                    Event::Hora { ura_markers: Some(ura), .. } => if !old(self).ura_is_recorded {
                        let (u1, ok1) = see_all(counts(old(self).unknown_tiles@), ids(ura@));
                        &&& ok == ok1
                        &&& ok ==> counts(final(self).unknown_tiles@) == u1 && final(self).lens@ == cur_lens.update(
                            3,
                            cap(cur_lens[3] + ura@.len()) as usize,
                        ) && final(self).from_rinshan == old(self).from_rinshan && final(self).ura_is_recorded
                    } else {
                        ok && *final(self) == *old(self)
                    },
                    Event::EndKyoku => {
                        &&& ok == (count_sum(counts(old(self).unknown_tiles@), 37) == shortfall(cur_lens[0] as int, 70)
                            + shortfall(cur_lens[1] as int, 4) + shortfall(cur_lens[2] as int, 5) + shortfall(
                            cur_lens[3] as int,
                            5,
                        ))
                        &&& !final(self).from_rinshan && !final(self).ura_is_recorded
                        &&& counts(final(self).unknown_tiles@) == full_counts()
                        &&& final(self).lens@ == seq![0usize, 0, 0, 0]
                    },
                    _ => ok && *final(self) == *old(self),
                }
            }),
            final(self).seeded == old(self).seeded,
    {
        match ev {
            Event::Tsumo { pai, .. } => {
                if self.from_rinshan {
                    self.lens[1] = capped(self.lens[1] + 1);
                    self.from_rinshan = false;
                } else {
                    if self.lens[0] + 1 > 70 {
                        return false;
                    }
                    self.lens[0] = self.lens[0] + 1;
                }
                self.see_one(*pai)
            },
            Event::Ankan { .. } | Event::Kakan { .. } | Event::Daiminkan { .. } => {
                self.from_rinshan = true;
                true
            },
            Event::Dora { dora_marker } => {
                if !self.see_one(*dora_marker) {
                    return false;
                }
                self.lens[2] = capped(self.lens[2] + 1);
                true
            },
            Event::Hora { ura_markers: Some(ura), .. } => {
                if !self.ura_is_recorded {
                    if !try_see_slice(&mut self.unknown_tiles, ura.as_slice()) {
                        return false;
                    }
                    let n = ura.len();
                    self.lens[3] = if n >= 100 {
                        100
                    } else {
                        capped(self.lens[3] + n)
                    };
                    self.ura_is_recorded = true;
                }
                true
            },
            Event::EndKyoku => self.end_kyoku(),
            _ => true,
        }
    }
}

impl Invisible {
    /// Whether `new` can read `game` to its end: every tile seen is one of
    /// the 37 and still unseen, the wall never grows past 70 tiles, the
    /// unseen tiles exactly complete each kyoku, and the kyoku numbers of
    /// a seeded game lie in range.
    pub fn can_read(game: &[Event], trust_seed: bool) -> (r: bool)
        ensures
            r == readable(game@, trust_seed),
    {
        let mut c = ReadCheck {
            seeded: false,
            from_rinshan: false,
            ura_is_recorded: false,
            unknown_tiles: full_unknown(),
            lens: [0; 4],
        };
        proof {
            assert(c.lens@ =~= seq![0usize, 0, 0, 0]);
        }
        let mut i: usize = 0;
        while i < game.len()
            invariant
                i <= game@.len(),
                c.models(scan_upto(game@, trust_seed, i as int)),
            decreases game@.len() - i,
        {
            let ghost st = scan_upto(game@, trust_seed, i as int);
            let ghost next = scan_upto(game@, trust_seed, i + 1);
            let ev = &game[i];
            if let Event::StartGame { seed: Some(_), .. } = ev {
                if trust_seed {
                    c.seeded = true;
                }
            }
            let ok = match ev {
                Event::StartKyoku { bakaze, kyoku, tehais, dora_marker, .. } => {
                    if c.seeded {
                        let b = bakaze.as_u8();
                        if b < 27 {
                            false
                        } else {
                            let v: u16 = 4 * ((b - 27) as u16) + *kyoku as u16;
                            if v < 1 || v > 255 {
                                false
                            } else {
                                c.lens = [0; 4];
                                true
                            }
                        }
                    } else {
                        let ok = c.start_unseeded(*dora_marker, tehais);
                        if ok {
                            c.lens[2] = capped(c.lens[2] + 1);
                        }
                        ok
                    }
                },
                _ => if c.seeded {
                    true
                } else {
                    c.unseeded_event(ev)
                },
            };
            if !ok {
                proof {
                    assert(!next.6);
                    if readable(game@, trust_seed) {
                        lemma_scan_ok_prefix(game@, trust_seed, i + 1, game@.len() as int);
                    }
                }
                return false;
            }
            proof {
                assert(c.models(next));
            }
            i += 1;
        }
        true
    }
}

} // verus!
