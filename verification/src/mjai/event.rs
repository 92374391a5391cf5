//! Events of the mjai protocol.

use crate::tile::{lemma_augment_involution, spec_augment, Tile};
use vstd::prelude::*;

verus! {

/// An event in mjai format.
///
/// This does not hold the full mjai specification, and it has a few
/// extensions of its own.
#[derive(Debug, Default, Clone, PartialEq, Eq)]
pub enum Event {
    #[default]
    Nothing,
    StartGame {
        names: [String; 4],
        /// Consists of (nonce, key).
        seed: Option<(u64, u64)>,
    },
    StartKyoku {
        bakaze: Tile,
        dora_marker: Tile,
        /// Counts from 1.
        kyoku: u8,
        honba: u8,
        kyotaku: u8,
        oya: u8,
        scores: [i32; 4],
        tehais: [[Tile; 13]; 4],
    },
    Tsumo { actor: u8, pai: Tile },
    Dahai { actor: u8, pai: Tile, tsumogiri: bool },
    Chi { actor: u8, target: u8, pai: Tile, consumed: [Tile; 2] },
    Pon { actor: u8, target: u8, pai: Tile, consumed: [Tile; 2] },
    Daiminkan { actor: u8, target: u8, pai: Tile, consumed: [Tile; 3] },
    Kakan { actor: u8, pai: Tile, consumed: [Tile; 3] },
    Ankan { actor: u8, consumed: [Tile; 4] },
    Dora { dora_marker: Tile },
    Reach { actor: u8 },
    ReachAccepted { actor: u8 },
    Hora { actor: u8, target: u8, deltas: Option<[i32; 4]>, ura_markers: Option<Vec<Tile>> },
    Ryukyoku { deltas: Option<[i32; 4]> },
    EndKyoku,
    EndGame,
}

/// A number read from mjai JSON that must lie in `MIN..=MAX`.
pub struct BoundedU8<const MIN: u8, const MAX: u8>(pub u8);

/// A number that lies outside of its allowed range.
#[derive(Debug, Clone, Copy, PartialEq, Eq)]
pub struct OutOfBoundError(pub u8);

impl<const MIN: u8, const MAX: u8> BoundedU8<MIN, MAX> {
    /// The number, if it lies in `MIN..=MAX`.
    pub fn try_into_u8(self) -> (r: Result<u8, OutOfBoundError>)
        ensures
            MIN <= self.0 <= MAX ==> r == Ok::<u8, OutOfBoundError>(self.0),
            !(MIN <= self.0 <= MAX) ==> r == Err::<u8, OutOfBoundError>(OutOfBoundError(self.0)),
    {
        if MIN <= self.0 && self.0 <= MAX {
            Ok(self.0)
        } else {
            Err(OutOfBoundError(self.0))
        }
    }
}

/// An event along with whether the receiver can act on it.
pub struct EventWithCanAct {
    pub event: Event,
    pub can_act: Option<bool>,
}

/// The seat that performs the event, for the events that have one.
pub open spec fn spec_actor(e: Event) -> Option<u8> {
    match e {
        Event::Tsumo { actor, .. } => Some(actor),
        Event::Dahai { actor, .. } => Some(actor),
        Event::Chi { actor, .. } => Some(actor),
        Event::Pon { actor, .. } => Some(actor),
        Event::Daiminkan { actor, .. } => Some(actor),
        Event::Kakan { actor, .. } => Some(actor),
        Event::Ankan { actor, .. } => Some(actor),
        Event::Reach { actor } => Some(actor),
        Event::ReachAccepted { actor } => Some(actor),
        Event::Hora { actor, .. } => Some(actor),
        _ => None,
    }
}

/// `u` is `t` with manzu and pinzu swapped.
pub open spec fn aug(t: Tile, u: Tile) -> bool {
    u.id() == spec_augment(t.id())
}

pub open spec fn aug_seq(t: Seq<Tile>, u: Seq<Tile>) -> bool {
    &&& t.len() == u.len()
    &&& forall|i: int| 0 <= i < t.len() ==> aug(#[trigger] t[i], u[i])
}

/// `b` is `a` with every tile augmented and everything else unchanged.
pub open spec fn augmented(a: Event, b: Event) -> bool {
    match (a, b) {
        (
            Event::StartKyoku {
                bakaze: b0,
                dora_marker: d0,
                kyoku: k0,
                honba: h0,
                kyotaku: y0,
                oya: o0,
                scores: s0,
                tehais: t0,
            },
            Event::StartKyoku {
                bakaze: b1,
                dora_marker: d1,
                kyoku: k1,
                honba: h1,
                kyotaku: y1,
                oya: o1,
                scores: s1,
                tehais: t1,
            },
        ) => {
            &&& aug(b0, b1)
            &&& aug(d0, d1)
            &&& k0 == k1 && h0 == h1 && y0 == y1 && o0 == o1 && s0 == s1
            &&& forall|i: int| 0 <= i < 4 ==> aug_seq(#[trigger] t0@[i]@, t1@[i]@)
        },
        (Event::Tsumo { actor: a0, pai: p0 }, Event::Tsumo { actor: a1, pai: p1 }) => a0 == a1
            && aug(p0, p1),
        (
            Event::Dahai { actor: a0, pai: p0, tsumogiri: g0 },
            Event::Dahai { actor: a1, pai: p1, tsumogiri: g1 },
        ) => a0 == a1 && g0 == g1 && aug(p0, p1),
        (
            Event::Chi { actor: a0, target: t0, pai: p0, consumed: c0 },
            Event::Chi { actor: a1, target: t1, pai: p1, consumed: c1 },
        ) => a0 == a1 && t0 == t1 && aug(p0, p1) && aug_seq(c0@, c1@),
        (
            Event::Pon { actor: a0, target: t0, pai: p0, consumed: c0 },
            Event::Pon { actor: a1, target: t1, pai: p1, consumed: c1 },
        ) => a0 == a1 && t0 == t1 && aug(p0, p1) && aug_seq(c0@, c1@),
        (
            Event::Daiminkan { actor: a0, target: t0, pai: p0, consumed: c0 },
            Event::Daiminkan { actor: a1, target: t1, pai: p1, consumed: c1 },
        ) => a0 == a1 && t0 == t1 && aug(p0, p1) && aug_seq(c0@, c1@),
        (
            Event::Kakan { actor: a0, pai: p0, consumed: c0 },
            Event::Kakan { actor: a1, pai: p1, consumed: c1 },
        ) => a0 == a1 && aug(p0, p1) && aug_seq(c0@, c1@),
        (Event::Ankan { actor: a0, consumed: c0 }, Event::Ankan { actor: a1, consumed: c1 }) => a0
            == a1 && aug_seq(c0@, c1@),
        (Event::Dora { dora_marker: d0 }, Event::Dora { dora_marker: d1 }) => aug(d0, d1),
        (
            Event::Hora { actor: a0, target: t0, deltas: x0, ura_markers: u0 },
            Event::Hora { actor: a1, target: t1, deltas: x1, ura_markers: u1 },
        ) => a0 == a1 && t0 == t1 && x0 == x1 && match (u0, u1) {
            (None, None) => true,
            (Some(v0), Some(v1)) => aug_seq(v0@, v1@),
            _ => false,
        },
        (Event::StartKyoku { .. }, _) => false,
        (Event::Tsumo { .. }, _) => false,
        (Event::Dahai { .. }, _) => false,
        (Event::Chi { .. }, _) => false,
        (Event::Pon { .. }, _) => false,
        (Event::Daiminkan { .. }, _) => false,
        (Event::Kakan { .. }, _) => false,
        (Event::Ankan { .. }, _) => false,
        (Event::Dora { .. }, _) => false,
        (Event::Hora { .. }, _) => false,
        _ => a == b,
    }
}

proof fn lemma_aug_symmetric(t: Tile, u: Tile)
    requires
        aug(t, u),
    ensures
        aug(u, t),
{
    t.lemma_id_nonneg();
    lemma_augment_involution(t.id());
}

proof fn lemma_aug_seq_symmetric(t: Seq<Tile>, u: Seq<Tile>)
    requires
        aug_seq(t, u),
    ensures
        aug_seq(u, t),
{
    assert forall|i: int| 0 <= i < u.len() implies aug(#[trigger] u[i], t[i]) by {
        lemma_aug_symmetric(t[i], u[i]);
    }
}

/// Augmentation undoes itself: when `b` is `a` augmented, `a` is `b`
/// augmented.
pub proof fn lemma_augmented_symmetric(a: Event, b: Event)
    requires
        augmented(a, b),
    ensures
        augmented(b, a),
{
    match (a, b) {
        (
            Event::StartKyoku { bakaze: b0, dora_marker: d0, tehais: t0, .. },
            Event::StartKyoku { bakaze: b1, dora_marker: d1, tehais: t1, .. },
        ) => {
            lemma_aug_symmetric(b0, b1);
            lemma_aug_symmetric(d0, d1);
            assert forall|i: int| 0 <= i < 4 implies aug_seq(#[trigger] t1@[i]@, t0@[i]@) by {
                lemma_aug_seq_symmetric(t0@[i]@, t1@[i]@);
            }
        },
        (Event::Tsumo { pai: p0, .. }, Event::Tsumo { pai: p1, .. }) => lemma_aug_symmetric(p0, p1),
        (Event::Dahai { pai: p0, .. }, Event::Dahai { pai: p1, .. }) => lemma_aug_symmetric(p0, p1),
        (Event::Chi { pai: p0, consumed: c0, .. }, Event::Chi { pai: p1, consumed: c1, .. }) => {
            lemma_aug_symmetric(p0, p1);
            lemma_aug_seq_symmetric(c0@, c1@);
        },
        (Event::Pon { pai: p0, consumed: c0, .. }, Event::Pon { pai: p1, consumed: c1, .. }) => {
            lemma_aug_symmetric(p0, p1);
            lemma_aug_seq_symmetric(c0@, c1@);
        },
        (
            Event::Daiminkan { pai: p0, consumed: c0, .. },
            Event::Daiminkan { pai: p1, consumed: c1, .. },
        ) => {
            lemma_aug_symmetric(p0, p1);
            lemma_aug_seq_symmetric(c0@, c1@);
        },
        (Event::Kakan { pai: p0, consumed: c0, .. }, Event::Kakan { pai: p1, consumed: c1, .. }) => {
            lemma_aug_symmetric(p0, p1);
            lemma_aug_seq_symmetric(c0@, c1@);
        },
        (Event::Ankan { consumed: c0, .. }, Event::Ankan { consumed: c1, .. }) => {
            lemma_aug_seq_symmetric(c0@, c1@);
        },
        (Event::Dora { dora_marker: d0 }, Event::Dora { dora_marker: d1 }) => {
            lemma_aug_symmetric(d0, d1);
        },
        (Event::Hora { ura_markers: u0, .. }, Event::Hora { ura_markers: u1, .. }) => {
            if let (Some(v0), Some(v1)) = (u0, u1) {
                lemma_aug_seq_symmetric(v0@, v1@);
            }
        },
        _ => {},
    }
}

proof fn lemma_aug_twice(t: Tile, u: Tile, v: Tile)
    requires
        aug(t, u),
        aug(u, v),
    ensures
        v == t,
{
    t.lemma_id_nonneg();
    lemma_augment_involution(t.id());
    v.lemma_id_injective(t);
}

proof fn lemma_aug_seq_twice(t: Seq<Tile>, u: Seq<Tile>, v: Seq<Tile>)
    requires
        aug_seq(t, u),
        aug_seq(u, v),
    ensures
        v == t,
{
    assert forall|i: int| 0 <= i < t.len() implies #[trigger] v[i] == t[i] by {
        lemma_aug_twice(t[i], u[i], v[i]);
    }
    assert(v =~= t);
}

/// Augmenting twice gives the event back. For a win that carries its ura
/// indicators, the indicators come back as the same sequence of tiles.
pub proof fn lemma_augment_twice(a: Event, b: Event, c: Event)
    requires
        augmented(a, b),
        augmented(b, c),
    ensures
        match a {
            Event::Hora { actor, target, deltas, ura_markers: Some(v0) } => c matches Event::Hora {
                actor: a2,
                target: t2,
                deltas: d2,
                ura_markers: Some(v2),
            } && a2 == actor && t2 == target && d2 == deltas && v2@ == v0@,
            _ => c == a,
        },
{
    broadcast use vstd::array::group_array_axioms;

    match (a, b, c) {
        (
            Event::StartKyoku { bakaze: b0, dora_marker: d0, tehais: t0, .. },
            Event::StartKyoku { bakaze: b1, dora_marker: d1, tehais: t1, .. },
            Event::StartKyoku { bakaze: b2, dora_marker: d2, tehais: t2, .. },
        ) => {
            lemma_aug_twice(b0, b1, b2);
            lemma_aug_twice(d0, d1, d2);
            assert forall|i: int| 0 <= i < 4 implies #[trigger] t2[i] == t0[i] by {
                lemma_aug_seq_twice(t0@[i]@, t1@[i]@, t2@[i]@);
                assert(t2[i] =~= t0[i]);
            }
            assert(t2 =~= t0);
        },
        (Event::Tsumo { pai: p0, .. }, Event::Tsumo { pai: p1, .. }, Event::Tsumo { pai: p2, .. }) => {
            lemma_aug_twice(p0, p1, p2);
        },
        (Event::Dahai { pai: p0, .. }, Event::Dahai { pai: p1, .. }, Event::Dahai { pai: p2, .. }) => {
            lemma_aug_twice(p0, p1, p2);
        },
        (
            Event::Chi { pai: p0, consumed: c0, .. },
            Event::Chi { pai: p1, consumed: c1, .. },
            Event::Chi { pai: p2, consumed: c2, .. },
        ) => {
            lemma_aug_twice(p0, p1, p2);
            lemma_aug_seq_twice(c0@, c1@, c2@);
            assert(c2 =~= c0);
        },
        (
            Event::Pon { pai: p0, consumed: c0, .. },
            Event::Pon { pai: p1, consumed: c1, .. },
            Event::Pon { pai: p2, consumed: c2, .. },
        ) => {
            lemma_aug_twice(p0, p1, p2);
            lemma_aug_seq_twice(c0@, c1@, c2@);
            assert(c2 =~= c0);
        },
        (
            Event::Daiminkan { pai: p0, consumed: c0, .. },
            Event::Daiminkan { pai: p1, consumed: c1, .. },
            Event::Daiminkan { pai: p2, consumed: c2, .. },
        ) => {
            lemma_aug_twice(p0, p1, p2);
            lemma_aug_seq_twice(c0@, c1@, c2@);
            assert(c2 =~= c0);
        },
        (
            Event::Kakan { pai: p0, consumed: c0, .. },
            Event::Kakan { pai: p1, consumed: c1, .. },
            Event::Kakan { pai: p2, consumed: c2, .. },
        ) => {
            lemma_aug_twice(p0, p1, p2);
            lemma_aug_seq_twice(c0@, c1@, c2@);
            assert(c2 =~= c0);
        },
        (
            Event::Ankan { consumed: c0, .. },
            Event::Ankan { consumed: c1, .. },
            Event::Ankan { consumed: c2, .. },
        ) => {
            lemma_aug_seq_twice(c0@, c1@, c2@);
            assert(c2 =~= c0);
        },
        (Event::Dora { dora_marker: d0 }, Event::Dora { dora_marker: d1 }, Event::Dora { dora_marker: d2 }) => {
            lemma_aug_twice(d0, d1, d2);
        },
        (
            Event::Hora { ura_markers: u0, .. },
            Event::Hora { ura_markers: u1, .. },
            Event::Hora { ura_markers: u2, .. },
        ) => {
            if let (Some(v0), Some(v1), Some(v2)) = (u0, u1, u2) {
                lemma_aug_seq_twice(v0@, v1@, v2@);
            }
        },
        _ => {},
    }
}

fn augment_slice(ts: &mut [Tile])
    ensures
        aug_seq(old(ts)@, final(ts)@),
{
    let mut i: usize = 0;
    while i < ts.len()
        invariant
            i <= ts@.len(),
            ts@.len() == old(ts)@.len(),
            forall|j: int| 0 <= j < i ==> aug(#[trigger] old(ts)@[j], ts@[j]),
            forall|j: int| i <= j < ts@.len() ==> #[trigger] ts@[j] == old(ts)@[j],
        decreases ts@.len() - i,
    {
        let t = ts[i].augment();
        ts[i] = t;
        i += 1;
    }
}

fn augment_vec(ts: &mut Vec<Tile>)
    ensures
        aug_seq(old(ts)@, final(ts)@),
{
    let mut i: usize = 0;
    while i < ts.len()
        invariant
            i <= ts@.len(),
            ts@.len() == old(ts)@.len(),
            forall|j: int| 0 <= j < i ==> aug(#[trigger] old(ts)@[j], ts@[j]),
            forall|j: int| i <= j < ts@.len() ==> #[trigger] ts@[j] == old(ts)@[j],
        decreases ts@.len() - i,
    {
        let t = ts[i].augment();
        ts.set(i, t);
        i += 1;
    }
}

impl Event {
    /// The seat that performs the event, for the events that have one.
    pub fn actor(&self) -> (r: Option<u8>)
        ensures
            r == spec_actor(*self),
    {
        match *self {
            Event::Tsumo { actor, .. } => Some(actor),
            Event::Dahai { actor, .. } => Some(actor),
            Event::Chi { actor, .. } => Some(actor),
            Event::Pon { actor, .. } => Some(actor),
            Event::Daiminkan { actor, .. } => Some(actor),
            Event::Kakan { actor, .. } => Some(actor),
            Event::Ankan { actor, .. } => Some(actor),
            Event::Reach { actor } => Some(actor),
            Event::ReachAccepted { actor } => Some(actor),
            Event::Hora { actor, .. } => Some(actor),
            _ => None,
        }
    }

    /// Whether the event is announced during a kyoku without a decision of
    /// the receiver: an accepted riichi, a new dora or a win.
    pub fn is_in_game_announce(&self) -> (r: bool)
        ensures
            r == (*self is ReachAccepted || *self is Dora || *self is Hora),
    {
        match self {
            Event::ReachAccepted { .. } | Event::Dora { .. } | Event::Hora { .. } => true,
            _ => false,
        }
    }

    /// Swaps manzu and pinzu in every tile of the event.
    pub fn augment(&mut self)
        ensures
            augmented(*old(self), *final(self)),
    {
        match self {
            Event::StartKyoku { bakaze, dora_marker, tehais, .. } => {
                *bakaze = bakaze.augment();
                *dora_marker = dora_marker.augment();
                let ghost t0 = *tehais;
                let mut i: usize = 0;
                while i < 4
                    invariant
                        i <= 4,
                        forall|j: int| 0 <= j < i ==> aug_seq(#[trigger] t0@[j]@, tehais@[j]@),
                        forall|j: int| i <= j < 4 ==> #[trigger] tehais@[j] == t0@[j],
                    decreases 4 - i,
                {
                    augment_slice(&mut tehais[i]);
                    i += 1;
                }
            },
            Event::Tsumo { pai, .. } => {
                *pai = pai.augment();
            },
            Event::Dahai { pai, .. } => {
                *pai = pai.augment();
            },
            Event::Chi { pai, consumed, .. } => {
                *pai = pai.augment();
                augment_slice(consumed);
            },
            Event::Pon { pai, consumed, .. } => {
                *pai = pai.augment();
                augment_slice(consumed);
            },
            Event::Daiminkan { pai, consumed, .. } => {
                *pai = pai.augment();
                augment_slice(consumed);
            },
            Event::Kakan { pai, consumed, .. } => {
                *pai = pai.augment();
                augment_slice(consumed);
            },
            Event::Ankan { consumed, .. } => {
                augment_slice(consumed);
            },
            Event::Dora { dora_marker } => {
                *dora_marker = dora_marker.augment();
            },
            Event::Hora { ura_markers, .. } => {
                if let Some(v) = ura_markers {
                    augment_vec(v);
                }
            },
            _ => {},
        }
    }
}

} // verus!
