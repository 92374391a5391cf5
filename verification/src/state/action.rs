use super::player_state::{tile_items, tile_vec_slice, PlayerState};
use crate::chi_type::{spec_chi_type, ChiType};
use crate::mjai::event::{spec_actor, Event};
use crate::tile::{spec_deaka, Tile};
use vstd::prelude::*;

verus! {

/// The actions a seat may take on the last event.
#[derive(Debug, Default, Clone, Copy, PartialEq, Eq, Structural)]
pub struct ActionCandidate {
    pub can_discard: bool,
    pub can_chi_low: bool,
    pub can_chi_mid: bool,
    pub can_chi_high: bool,
    pub can_pon: bool,
    pub can_daiminkan: bool,
    pub can_kakan: bool,
    pub can_ankan: bool,
    pub can_riichi: bool,
    pub can_tsumo_agari: bool,
    pub can_ron_agari: bool,
    pub can_ryukyoku: bool,
    pub target_actor: u8,
}

impl ActionCandidate {
    pub open spec fn empty_spec() -> ActionCandidate {
        ActionCandidate {
            can_discard: false,
            can_chi_low: false,
            can_chi_mid: false,
            can_chi_high: false,
            can_pon: false,
            can_daiminkan: false,
            can_kakan: false,
            can_ankan: false,
            can_riichi: false,
            can_tsumo_agari: false,
            can_ron_agari: false,
            can_ryukyoku: false,
            target_actor: 0,
        }
    }

    /// No action allowed.
    pub fn empty() -> (r: ActionCandidate)
        ensures
            r == Self::empty_spec(),
    {
        ActionCandidate {
            can_discard: false,
            can_chi_low: false,
            can_chi_mid: false,
            can_chi_high: false,
            can_pon: false,
            can_daiminkan: false,
            can_kakan: false,
            can_ankan: false,
            can_riichi: false,
            can_tsumo_agari: false,
            can_ron_agari: false,
            can_ryukyoku: false,
            target_actor: 0,
        }
    }

    pub open spec fn spec_can_chi(self) -> bool {
        self.can_chi_low || self.can_chi_mid || self.can_chi_high
    }

    pub open spec fn spec_can_kan(self) -> bool {
        self.can_daiminkan || self.can_kakan || self.can_ankan
    }

    pub open spec fn spec_can_agari(self) -> bool {
        self.can_tsumo_agari || self.can_ron_agari
    }

    pub fn can_chi(&self) -> (r: bool)
        ensures
            r == self.spec_can_chi(),
    {
        self.can_chi_low || self.can_chi_mid || self.can_chi_high
    }

    pub fn can_kan(&self) -> (r: bool)
        ensures
            r == self.spec_can_kan(),
    {
        self.can_daiminkan || self.can_kakan || self.can_ankan
    }

    pub fn can_agari(&self) -> (r: bool)
        ensures
            r == self.spec_can_agari(),
    {
        self.can_tsumo_agari || self.can_ron_agari
    }

    /// Whether the seat may decline: it is offered a call or a ron.
    pub fn can_pass(&self) -> (r: bool)
        ensures
            r == (self.spec_can_chi() || self.can_pon || self.can_daiminkan || self.can_ron_agari),
    {
        self.can_chi() || self.can_pon || self.can_daiminkan || self.can_ron_agari
    }

    /// Whether the seat has any action at all.
    pub fn can_act(&self) -> (r: bool)
        ensures
            r == (self.can_discard || self.spec_can_chi() || self.can_pon || self.spec_can_kan()
                || self.can_riichi || self.spec_can_agari() || self.can_ryukyoku),
    {
        self.can_discard || self.can_chi() || self.can_pon || self.can_kan() || self.can_riichi
            || self.can_agari() || self.can_ryukyoku
    }
}

/// Why a reaction is not valid.
#[derive(Debug, Clone, Copy, PartialEq, Eq)]
pub enum ReactionError {
    CannotRyukyoku,
    NoActor,
    ActorNotSelf { actor: u8, player_id: u8 },
    CannotDiscard,
    TileNotInHand(Tile),
    CannotTsumogiri,
    NoTsumoYet,
    CannotRiichi,
    ChiFromNonKamicha,
    ChiNotLastKawaTile,
    CannotChiLow,
    CannotChiMid,
    CannotChiHigh,
    PonFromSelf,
    PonNotLastKawaTile,
    CannotPon,
    DaiminkanFromSelf,
    DaiminkanNotLastKawaTile,
    CannotDaiminkan,
    CannotKakan,
    KakanNotCandidate(Tile),
    CannotAnkan,
    AnkanNotCandidate(Tile),
    CannotTsumoAgari,
    CannotRonAgari,
    UnexpectedAction,
}

/// The first tile of `tiles[i..]` that the hand does not hold, if any.
pub open spec fn first_missing(ps: PlayerState, tiles: Seq<Tile>, i: int) -> Option<Tile>
    decreases tiles.len() - i,
{
    if i >= tiles.len() || i < 0 {
        None
    } else {
        let t = tiles[i];
        if ps.tehai@[spec_deaka(t.id())] == 0 || (34 <= t.id() <= 36 && !ps.akas_in_hand@[t.id() - 34]) {
            Some(t)
        } else {
            first_missing(ps, tiles, i + 1)
        }
    }
}

pub open spec fn in_hand(ps: PlayerState, tiles: Seq<Tile>) -> Result<(), ReactionError> {
    match first_missing(ps, tiles, 0) {
        Some(t) => Err(ReactionError::TileNotInHand(t)),
        None => Ok(()),
    }
}

pub open spec fn is_last_kawa(ps: PlayerState, pai: Tile) -> bool {
    ps.last_kawa_tile == Some(pai)
}

pub open spec fn then(c: bool, e: ReactionError, rest: Result<(), ReactionError>) -> Result<(), ReactionError> {
    if c {
        rest
    } else {
        Err(e)
    }
}

/// Whether `action` is a valid reaction of `ps`, and the first check it
/// fails otherwise.
pub open spec fn spec_validate(ps: PlayerState, action: Event) -> Result<(), ReactionError> {
    let cans = ps.last_cans;
    match action {
        Event::Ryukyoku { .. } => then(cans.can_ryukyoku, ReactionError::CannotRyukyoku, Ok(())),
        Event::Nothing => Ok(()),
        _ => match spec_actor(action) {
            None => Err(ReactionError::NoActor),
            Some(actor) => if actor != ps.player_id {
                Err(ReactionError::ActorNotSelf { actor, player_id: ps.player_id })
            } else {
                match action {
                    Event::Dahai { pai, tsumogiri, .. } => then(
                        cans.can_discard,
                        ReactionError::CannotDiscard,
                        match in_hand(ps, seq![pai]) {
                            Err(e) => Err(e),
                            Ok(_) => if tsumogiri {
                                match ps.last_self_tsumo {
                                    Some(t) => then(t == pai, ReactionError::CannotTsumogiri, Ok(())),
                                    None => Err(ReactionError::NoTsumoYet),
                                }
                            } else {
                                Ok(())
                            },
                        },
                    ),
                    Event::Reach { .. } => then(cans.can_riichi, ReactionError::CannotRiichi, Ok(())),
                    Event::Chi { actor, target, pai, consumed } => then(
                        (target + 1) % 4 == actor,
                        ReactionError::ChiFromNonKamicha,
                        then(
                            is_last_kawa(ps, pai),
                            ReactionError::ChiNotLastKawaTile,
                            match in_hand(ps, consumed@) {
                                Err(e) => Err(e),
                                Ok(_) => match spec_chi_type(consumed@[0].id(), consumed@[1].id(), pai.id()) {
                                    ChiType::Low => then(cans.can_chi_low, ReactionError::CannotChiLow, Ok(())),
                                    ChiType::Mid => then(cans.can_chi_mid, ReactionError::CannotChiMid, Ok(())),
                                    ChiType::High => then(
                                        cans.can_chi_high,
                                        ReactionError::CannotChiHigh,
                                        Ok(()),
                                    ),
                                },
                            },
                        ),
                    ),
                    Event::Pon { actor, target, pai, consumed } => then(
                        target != actor,
                        ReactionError::PonFromSelf,
                        then(
                            is_last_kawa(ps, pai),
                            ReactionError::PonNotLastKawaTile,
                            then(cans.can_pon, ReactionError::CannotPon, in_hand(ps, consumed@)),
                        ),
                    ),
                    Event::Daiminkan { actor, target, pai, consumed } => then(
                        target != actor,
                        ReactionError::DaiminkanFromSelf,
                        then(
                            is_last_kawa(ps, pai),
                            ReactionError::DaiminkanNotLastKawaTile,
                            then(cans.can_daiminkan, ReactionError::CannotDaiminkan, in_hand(ps, consumed@)),
                        ),
                    ),
                    Event::Kakan { pai, .. } => then(
                        cans.can_kakan,
                        ReactionError::CannotKakan,
                        if tile_items(ps.kakan_candidates).contains(spec_deaka(pai.id())) {
                            in_hand(ps, seq![pai])
                        } else {
                            Err(ReactionError::KakanNotCandidate(pai))
                        },
                    ),
                    Event::Ankan { consumed, .. } => then(
                        cans.can_ankan,
                        ReactionError::CannotAnkan,
                        if tile_items(ps.ankan_candidates).contains(spec_deaka(consumed@[0].id())) {
                            in_hand(ps, consumed@)
                        } else {
                            Err(ReactionError::AnkanNotCandidate(deaka_tile(consumed@[0])))
                        },
                    ),
                    Event::Hora { target, .. } => if target == ps.player_id {
                        then(cans.can_tsumo_agari, ReactionError::CannotTsumoAgari, Ok(()))
                    } else {
                        then(cans.can_ron_agari, ReactionError::CannotRonAgari, Ok(()))
                    },
                    _ => Err(ReactionError::UnexpectedAction),
                }
            },
        },
    }
}

pub open spec fn known(t: Seq<Tile>) -> bool {
    forall|i: int| 0 <= i < t.len() ==> #[trigger] t[i].id() != 37
}

/// The tiles that the hand check reads are not the unknown tile, which has
/// no count in the hand.
pub open spec fn known_tiles(action: Event) -> bool {
    match action {
        Event::Dahai { pai, .. } => pai.id() != 37,
        Event::Chi { consumed, .. } => known(consumed@),
        Event::Pon { consumed, .. } => known(consumed@),
        Event::Daiminkan { consumed, .. } => known(consumed@),
        Event::Kakan { pai, .. } => pai.id() != 37,
        Event::Ankan { consumed, .. } => known(consumed@),
        _ => true,
    }
}

/// The plain tile of `t`.
pub open spec fn deaka_tile(t: Tile) -> Tile {
    choose|u: Tile| u.id() == spec_deaka(t.id())
}

proof fn lemma_contains_id(v: Seq<Tile>, t: Tile)
    ensures
        v.contains(t) == v.map_values(|u: Tile| u.id()).contains(t.id()),
{
    let ids = v.map_values(|u: Tile| u.id());
    if ids.contains(t.id()) {
        let j = choose|j: int| 0 <= j < ids.len() && #[trigger] ids[j] == t.id();
        v[j].lemma_id_injective(t);
    }
    if v.contains(t) {
        let j = choose|j: int| 0 <= j < v.len() && #[trigger] v[j] == t;
        assert(ids[j] == t.id());
    }
}

fn contains_tile(v: &[Tile], t: Tile) -> (r: bool)
    ensures
        r == v@.contains(t),
{
    let mut i: usize = 0;
    while i < v.len()
        invariant
            i <= v@.len(),
            forall|j: int| 0 <= j < i ==> v@[j] != t,
        decreases v@.len() - i,
    {
        if v[i] == t {
            assert(v@[i as int] == t);
            return true;
        }
        i += 1;
    }
    false
}

impl PlayerState {
    fn ensure_tiles_in_hand(&self, tiles: &[Tile]) -> (r: Result<(), ReactionError>)
        requires
            forall|i: int| 0 <= i < tiles@.len() ==> #[trigger] tiles@[i].id() != 37,
        ensures
            r == in_hand(*self, tiles@),
    {
        let mut i: usize = 0;
        while i < tiles.len()
            invariant
                i <= tiles@.len(),
                first_missing(*self, tiles@, i as int) == first_missing(*self, tiles@, 0),
                forall|k: int| 0 <= k < tiles@.len() ==> #[trigger] tiles@[k].id() != 37,
            decreases tiles@.len() - i,
        {
            let tile = tiles[i];
            if self.tehai[tile.deaka().as_usize()] == 0 {
                return Err(ReactionError::TileNotInHand(tile));
            }
            if tile.is_aka() {
                if !self.akas_in_hand[tile.as_usize() - 34] {
                    return Err(ReactionError::TileNotInHand(tile));
                }
            }
            i += 1;
        }
        Ok(())
    }

    /// Checks that `action` is a valid reaction to the current state.
    pub fn validate_reaction(&self, action: &Event) -> (r: Result<(), ReactionError>)
        requires
            action matches Event::Chi { target, .. } ==> target < 255,
            known_tiles(*action),
        ensures
            r == spec_validate(*self, *action),
    {
        let cans = self.last_cans;
        match action {
            Event::Ryukyoku { .. } => {
                if !cans.can_ryukyoku {
                    return Err(ReactionError::CannotRyukyoku);
                }
                return Ok(());
            },
            Event::Nothing => {
                return Ok(());
            },
            _ => {},
        }
        match action.actor() {
            Some(actor) => {
                if actor != self.player_id {
                    return Err(ReactionError::ActorNotSelf { actor, player_id: self.player_id });
                }
            },
            None => {
                return Err(ReactionError::NoActor);
            },
        }
        match action {
            Event::Dahai { pai, tsumogiri, .. } => {
                if !cans.can_discard {
                    return Err(ReactionError::CannotDiscard);
                }
                let one = [*pai];
                proof {
                    assert(one@ =~= seq![*pai]);
                }
                self.ensure_tiles_in_hand(&one)?;
                if *tsumogiri {
                    match self.last_self_tsumo {
                        Some(tile) => {
                            if tile != *pai {
                                return Err(ReactionError::CannotTsumogiri);
                            }
                        },
                        None => {
                            return Err(ReactionError::NoTsumoYet);
                        },
                    }
                }
                Ok(())
            },
            Event::Reach { .. } => {
                if !cans.can_riichi {
                    return Err(ReactionError::CannotRiichi);
                }
                Ok(())
            },
            Event::Chi { actor, target, pai, consumed } => {
                if (*target + 1) % 4 != *actor {
                    return Err(ReactionError::ChiFromNonKamicha);
                }
                match self.last_kawa_tile {
                    Some(tile) => {
                        if tile != *pai {
                            return Err(ReactionError::ChiNotLastKawaTile);
                        }
                    },
                    None => {
                        return Err(ReactionError::ChiNotLastKawaTile);
                    },
                }
                self.ensure_tiles_in_hand(consumed)?;
                match ChiType::new(*consumed, *pai) {
                    ChiType::Low => {
                        if !cans.can_chi_low {
                            return Err(ReactionError::CannotChiLow);
                        }
                    },
                    ChiType::Mid => {
                        if !cans.can_chi_mid {
                            return Err(ReactionError::CannotChiMid);
                        }
                    },
                    ChiType::High => {
                        if !cans.can_chi_high {
                            return Err(ReactionError::CannotChiHigh);
                        }
                    },
                }
                Ok(())
            },
            Event::Pon { actor, target, pai, consumed } => {
                if *target == *actor {
                    return Err(ReactionError::PonFromSelf);
                }
                match self.last_kawa_tile {
                    Some(tile) => {
                        if tile != *pai {
                            return Err(ReactionError::PonNotLastKawaTile);
                        }
                    },
                    None => {
                        return Err(ReactionError::PonNotLastKawaTile);
                    },
                }
                if !cans.can_pon {
                    return Err(ReactionError::CannotPon);
                }
                self.ensure_tiles_in_hand(consumed)
            },
            Event::Daiminkan { actor, target, pai, consumed } => {
                if *target == *actor {
                    return Err(ReactionError::DaiminkanFromSelf);
                }
                match self.last_kawa_tile {
                    Some(tile) => {
                        if tile != *pai {
                            return Err(ReactionError::DaiminkanNotLastKawaTile);
                        }
                    },
                    None => {
                        return Err(ReactionError::DaiminkanNotLastKawaTile);
                    },
                }
                if !cans.can_daiminkan {
                    return Err(ReactionError::CannotDaiminkan);
                }
                self.ensure_tiles_in_hand(consumed)
            },
            Event::Kakan { pai, .. } => {
                if !cans.can_kakan {
                    return Err(ReactionError::CannotKakan);
                }
                let plain = pai.deaka();
                proof {
                    plain.lemma_id_injective(deaka_tile(*pai));
                }
                let cands = tile_vec_slice(&self.kakan_candidates);
                proof {
                    lemma_contains_id(cands@, plain);
                }
                if !contains_tile(cands, plain) {
                    return Err(ReactionError::KakanNotCandidate(*pai));
                }
                let one = [*pai];
                proof {
                    assert(one@ =~= seq![*pai]);
                }
                self.ensure_tiles_in_hand(&one)
            },
            Event::Ankan { consumed, .. } => {
                if !cans.can_ankan {
                    return Err(ReactionError::CannotAnkan);
                }
                let tile = consumed[0].deaka();
                proof {
                    tile.lemma_id_injective(deaka_tile(consumed@[0]));
                }
                let cands = tile_vec_slice(&self.ankan_candidates);
                proof {
                    lemma_contains_id(cands@, tile);
                }
                if !contains_tile(cands, tile) {
                    return Err(ReactionError::AnkanNotCandidate(tile));
                }
                self.ensure_tiles_in_hand(consumed)
            },
            Event::Hora { target, .. } => {
                if *target == self.player_id {
                    if !cans.can_tsumo_agari {
                        return Err(ReactionError::CannotTsumoAgari);
                    }
                } else {
                    if !cans.can_ron_agari {
                        return Err(ReactionError::CannotRonAgari);
                    }
                }
                Ok(())
            },
            _ => Err(ReactionError::UnexpectedAction),
        }
    }
}

/// The hand holds `t`: a tile of its kind, and the red five itself when
/// `t` is one.
pub open spec fn holds(ps: PlayerState, t: Tile) -> bool {
    ps.tehai@[spec_deaka(t.id())] != 0 && !(34 <= t.id() <= 36 && !ps.akas_in_hand@[t.id() - 34])
}

pub open spec fn holds_all(ps: PlayerState, tiles: Seq<Tile>) -> bool {
    forall|i: int| 0 <= i < tiles.len() ==> holds(ps, #[trigger] tiles[i])
}

proof fn lemma_first_missing_none(ps: PlayerState, tiles: Seq<Tile>, i: int)
    requires
        0 <= i,
        first_missing(ps, tiles, i) is None,
    ensures
        forall|j: int| i <= j < tiles.len() ==> holds(ps, #[trigger] tiles[j]),
    decreases tiles.len() - i,
{
    if i < tiles.len() {
        lemma_first_missing_none(ps, tiles, i + 1);
    }
}

/// What a valid reaction has been offered: a reaction that passes the
/// checks is a pass, or an abortive draw the seat may declare, or an action
/// of the seat itself that its candidates allow, on tiles its hand holds
/// (for a call, on the tile just discarded).
pub proof fn lemma_valid_reaction(ps: PlayerState, action: Event)
    requires
        spec_validate(ps, action) is Ok,
    ensures
        action is Nothing || action is Ryukyoku || spec_actor(action) == Some(ps.player_id),
        match action {
            Event::Ryukyoku { .. } => ps.last_cans.can_ryukyoku,
            Event::Dahai { pai, tsumogiri, .. } => ps.last_cans.can_discard && holds(ps, pai) && (tsumogiri
                ==> ps.last_self_tsumo == Some(pai)),
            Event::Reach { .. } => ps.last_cans.can_riichi,
            Event::Chi { actor, target, pai, consumed } => {
                &&& (target + 1) % 4 == actor
                &&& ps.last_kawa_tile == Some(pai)
                &&& holds_all(ps, consumed@)
                &&& match spec_chi_type(consumed@[0].id(), consumed@[1].id(), pai.id()) {
                    ChiType::Low => ps.last_cans.can_chi_low,
                    ChiType::Mid => ps.last_cans.can_chi_mid,
                    ChiType::High => ps.last_cans.can_chi_high,
                }
            },
            Event::Pon { actor, target, pai, consumed } => target != actor && ps.last_kawa_tile == Some(pai)
                && ps.last_cans.can_pon && holds_all(ps, consumed@),
            Event::Daiminkan { actor, target, pai, consumed } => target != actor && ps.last_kawa_tile == Some(
                pai,
            ) && ps.last_cans.can_daiminkan && holds_all(ps, consumed@),
            Event::Kakan { pai, .. } => ps.last_cans.can_kakan && tile_items(ps.kakan_candidates).contains(spec_deaka(pai.id()))
                && holds(ps, pai),
            Event::Ankan { consumed, .. } => ps.last_cans.can_ankan && tile_items(ps.ankan_candidates).contains(
                spec_deaka(consumed@[0].id()),
            ) && holds_all(ps, consumed@),
            Event::Hora { target, .. } => if target == ps.player_id {
                ps.last_cans.can_tsumo_agari
            } else {
                ps.last_cans.can_ron_agari
            },
            Event::Nothing => true,
            _ => false,
        },
{
    match action {
        Event::Dahai { pai, .. } => {
            lemma_first_missing_none(ps, seq![pai], 0);
            assert(seq![pai][0] == pai);
        },
        Event::Kakan { pai, .. } => {
            lemma_first_missing_none(ps, seq![pai], 0);
            assert(seq![pai][0] == pai);
        },
        Event::Chi { consumed, .. } => lemma_first_missing_none(ps, consumed@, 0),
        Event::Pon { consumed, .. } => lemma_first_missing_none(ps, consumed@, 0),
        Event::Daiminkan { consumed, .. } => lemma_first_missing_none(ps, consumed@, 0),
        Event::Ankan { consumed, .. } => lemma_first_missing_none(ps, consumed@, 0),
        _ => {},
    }
}

proof fn lemma_held_none(ps: PlayerState, tiles: Seq<Tile>, i: int)
    requires
        0 <= i,
        forall|j: int| i <= j < tiles.len() ==> holds(ps, #[trigger] tiles[j]),
    ensures
        first_missing(ps, tiles, i) is None,
    decreases tiles.len() - i,
{
    if i < tiles.len() {
        assert(holds(ps, tiles[i]));
        lemma_held_none(ps, tiles, i + 1);
    }
}

/// The checks refuse nothing they should let through: a pass is always
/// accepted, an abortive draw whenever the seat may declare it, and an
/// action of the seat itself whenever its candidates allow it and its hand
/// holds the tiles (for a call, of the tile just discarded by the right
/// seat).
pub proof fn lemma_reaction_accepted(ps: PlayerState, action: Event)
    requires
        match action {
            Event::Nothing => true,
            Event::Ryukyoku { .. } => ps.last_cans.can_ryukyoku,
            Event::Dahai { actor, pai, tsumogiri } => actor == ps.player_id && ps.last_cans.can_discard && holds(
                ps,
                pai,
            ) && (tsumogiri ==> ps.last_self_tsumo == Some(pai)),
            Event::Reach { actor } => actor == ps.player_id && ps.last_cans.can_riichi,
            Event::Chi { actor, target, pai, consumed } => {
                &&& actor == ps.player_id
                &&& (target + 1) % 4 == actor
                &&& ps.last_kawa_tile == Some(pai)
                &&& holds_all(ps, consumed@)
                &&& match spec_chi_type(consumed@[0].id(), consumed@[1].id(), pai.id()) {
                    ChiType::Low => ps.last_cans.can_chi_low,
                    ChiType::Mid => ps.last_cans.can_chi_mid,
                    ChiType::High => ps.last_cans.can_chi_high,
                }
            },
            Event::Pon { actor, target, pai, consumed } => actor == ps.player_id && target != actor
                && ps.last_kawa_tile == Some(pai) && ps.last_cans.can_pon && holds_all(ps, consumed@),
            Event::Daiminkan { actor, target, pai, consumed } => actor == ps.player_id && target != actor
                && ps.last_kawa_tile == Some(pai) && ps.last_cans.can_daiminkan && holds_all(ps, consumed@),
            Event::Kakan { actor, pai, .. } => actor == ps.player_id && ps.last_cans.can_kakan && tile_items(
                ps.kakan_candidates,
            ).contains(spec_deaka(pai.id())) && holds(ps, pai),
            Event::Ankan { actor, consumed } => actor == ps.player_id && ps.last_cans.can_ankan && tile_items(
                ps.ankan_candidates,
            ).contains(spec_deaka(consumed@[0].id())) && holds_all(ps, consumed@),
            Event::Hora { actor, target, .. } => actor == ps.player_id && if target == ps.player_id {
                ps.last_cans.can_tsumo_agari
            } else {
                ps.last_cans.can_ron_agari
            },
            _ => false,
        },
    ensures
        spec_validate(ps, action) == Ok::<(), ReactionError>(()),
{
    match action {
        Event::Dahai { pai, .. } => {
            assert(seq![pai][0] == pai);
            lemma_held_none(ps, seq![pai], 0);
        },
        Event::Kakan { pai, .. } => {
            assert(seq![pai][0] == pai);
            lemma_held_none(ps, seq![pai], 0);
        },
        Event::Chi { consumed, .. } => lemma_held_none(ps, consumed@, 0),
        Event::Pon { consumed, .. } => lemma_held_none(ps, consumed@, 0),
        Event::Daiminkan { consumed, .. } => lemma_held_none(ps, consumed@, 0),
        Event::Ankan { consumed, .. } => lemma_held_none(ps, consumed@, 0),
        _ => {},
    }
}

} // verus!
