//! The action a seat took, as a training label, read from a window of four
//! log events.
//!
//! Labels: 0 to 36 discard that tile (red fives at 34 to 36), 37 riichi, 38
//! to 40 chi with the called tile lowest, in the middle or highest, 41 pon,
//! 42 kan, 43 agari, 44 abortive draw, 45 pass. A kan may come with a second
//! label: the kind of tile that is kanned, red fives as plain fives.

use crate::chi_type::{spec_chi_type, ChiType};
use crate::mjai::Event;
use crate::state::action::ActionCandidate;
use crate::tile::{spec_deaka, Tile};
use vstd::prelude::*;

verus! {

/// The event that answers `wnd[0]`: the next one, skipping a riichi
/// acceptance or a new dora indicator.
pub open spec fn answer(wnd: Seq<Event>) -> Event {
    if wnd[1] is ReachAccepted || wnd[1] is Dora {
        wnd[2]
    } else {
        wnd[1]
    }
}

/// Among `wnd[j..]`, before any end of the kyoku, `player_id` wins.
pub open spec fn wins_before_end(wnd: Seq<Event>, player_id: u8, j: int) -> bool
    decreases 4 - j,
{
    if j >= 4 || j < 0 {
        false
    } else {
        match wnd[j] {
            Event::EndKyoku => false,
            Event::Hora { actor, .. } => actor == player_id || wins_before_end(wnd, player_id, j + 1),
            _ => wins_before_end(wnd, player_id, j + 1),
        }
    }
}

pub open spec fn chi_label(t: ChiType) -> u8 {
    match t {
        ChiType::Low => 38,
        ChiType::Mid => 39,
        ChiType::High => 40,
    }
}

/// The kind of `t`, red fives as plain fives.
pub open spec fn kind_of(t: Tile) -> u8 {
    spec_deaka(t.id()) as u8
}

/// The label of a seat that was not answered by one of its own actions:
/// 43 if it won on the discard, else 45 if it declined a call or a ron
/// that it could make, else none.
pub open spec fn fallback_label(cans: ActionCandidate, wnd: Seq<Event>, player_id: u8) -> Option<u8> {
    let has_any_ron = wnd[1] is Hora;
    if has_any_ron && wins_before_end(wnd, player_id, 1) {
        Some(43u8)
    } else if (cans.spec_can_chi() && answer(wnd) is Tsumo) || ((cans.can_pon || cans.can_daiminkan
        || cans.can_ron_agari) && !has_any_ron) {
        Some(45u8)
    } else {
        None
    }
}

/// The label of what `player_id` did after `wnd[0]`, given what it could
/// do (`cans`) and how many kakan and ankan it could choose from, and the
/// kan tile label where one is recorded.
pub open spec fn spec_action_label(
    cans: ActionCandidate,
    wnd: Seq<Event>,
    player_id: u8,
    always_include_kan_select: bool,
    n_kakan: usize,
    n_ankan: usize,
) -> (Option<u8>, Option<u8>) {
    if !(cans.can_discard || cans.spec_can_chi() || cans.can_pon || cans.spec_can_kan() || cans.can_riichi
        || cans.spec_can_agari() || cans.can_ryukyoku) {
        (None, None)
    } else {
        match answer(wnd) {
            Event::Dahai { pai, .. } => (Some(pai.id() as u8), None),
            Event::Reach { .. } => (Some(37u8), None),
            Event::Chi { actor, pai, consumed, .. } => if actor == player_id {
                (Some(chi_label(spec_chi_type(consumed@[0].id(), consumed@[1].id(), pai.id()))), None)
            } else {
                (fallback_label(cans, wnd, player_id), None)
            },
            Event::Pon { actor, .. } => if actor == player_id {
                (Some(41u8), None)
            } else {
                (fallback_label(cans, wnd, player_id), None)
            },
            Event::Daiminkan { actor, pai, .. } => if actor == player_id {
                (Some(42u8), if always_include_kan_select { Some(kind_of(pai)) } else { None })
            } else {
                (fallback_label(cans, wnd, player_id), None)
            },
            Event::Kakan { pai, .. } => (
                Some(42u8),
                if always_include_kan_select || n_kakan > 1 { Some(kind_of(pai)) } else { None },
            ),
            Event::Ankan { consumed, .. } => (
                Some(42u8),
                if always_include_kan_select || n_ankan > 1 { Some(kind_of(consumed@[0])) } else { None },
            ),
            Event::Ryukyoku { .. } => if cans.can_ryukyoku {
                (Some(44u8), None)
            } else {
                (fallback_label(cans, wnd, player_id), None)
            },
            _ => (fallback_label(cans, wnd, player_id), None),
        }
    }
}

fn wins_in_window(wnd: &[Event; 4], player_id: u8) -> (r: bool)
    ensures
        r == wins_before_end(wnd@, player_id, 1),
{
    let mut j: usize = 4;
    let mut found = false;
    // Read from the back, so that `found` is the answer for `wnd[j..]`.
    while j > 1
        invariant
            1 <= j <= 4,
            found == wins_before_end(wnd@, player_id, j as int),
        decreases j,
    {
        j -= 1;
        found = match &wnd[j] {
            Event::EndKyoku => false,
            Event::Hora { actor, .. } => *actor == player_id || found,
            _ => found,
        };
    }
    found
}

fn fallback(cans: &ActionCandidate, wnd: &[Event; 4], player_id: u8) -> (r: Option<u8>)
    ensures
        r == fallback_label(*cans, wnd@, player_id),
{
    let has_any_ron = matches!(wnd[1], Event::Hora { .. });
    if has_any_ron && wins_in_window(wnd, player_id) {
        return Some(43);
    }
    let next_is_tsumo = if matches!(wnd[1], Event::ReachAccepted { .. } | Event::Dora { .. }) {
        matches!(wnd[2], Event::Tsumo { .. })
    } else {
        matches!(wnd[1], Event::Tsumo { .. })
    };
    if (cans.can_chi() && next_is_tsumo) || ((cans.can_pon || cans.can_daiminkan || cans.can_ron_agari)
        && !has_any_ron) {
        Some(45)
    } else {
        None
    }
}

/// The training label of what `player_id` did after the first event of
/// `wnd`, given what it could do then (`cans`), and the kan tile label
/// where one is recorded: always with `always_include_kan_select`, else
/// only for a kakan or an ankan chosen among more than one
/// (`n_kakan`, `n_ankan` candidates).
pub fn action_label(
    cans: ActionCandidate,
    wnd: &[Event; 4],
    player_id: u8,
    always_include_kan_select: bool,
    n_kakan: usize,
    n_ankan: usize,
) -> (r: (Option<u8>, Option<u8>))
    ensures
        r == spec_action_label(cans, wnd@, player_id, always_include_kan_select, n_kakan, n_ankan),
{
    if !cans.can_act() {
        return (None, None);
    }
    let next = if matches!(wnd[1], Event::ReachAccepted { .. } | Event::Dora { .. }) {
        &wnd[2]
    } else {
        &wnd[1]
    };
    match next {
        Event::Dahai { pai, .. } => (Some(pai.as_u8()), None),
        Event::Reach { .. } => (Some(37), None),
        Event::Chi { actor, pai, consumed, .. } => {
            if *actor == player_id {
                let label = match ChiType::new(*consumed, *pai) {
                    ChiType::Low => 38,
                    ChiType::Mid => 39,
                    ChiType::High => 40,
                };
                (Some(label), None)
            } else {
                (fallback(&cans, wnd, player_id), None)
            }
        },
        Event::Pon { actor, .. } => {
            if *actor == player_id {
                (Some(41), None)
            } else {
                (fallback(&cans, wnd, player_id), None)
            }
        },
        Event::Daiminkan { actor, pai, .. } => {
            if *actor == player_id {
                let sel = if always_include_kan_select {
                    Some(pai.deaka().as_u8())
                } else {
                    None
                };
                (Some(42), sel)
            } else {
                (fallback(&cans, wnd, player_id), None)
            }
        },
        Event::Kakan { pai, .. } => {
            let sel = if always_include_kan_select || n_kakan > 1 {
                Some(pai.deaka().as_u8())
            } else {
                None
            };
            (Some(42), sel)
        },
        Event::Ankan { consumed, .. } => {
            let sel = if always_include_kan_select || n_ankan > 1 {
                Some(consumed[0].deaka().as_u8())
            } else {
                None
            };
            (Some(42), sel)
        },
        Event::Ryukyoku { .. } => {
            if cans.can_ryukyoku {
                (Some(44), None)
            } else {
                (fallback(&cans, wnd, player_id), None)
            }
        },
        _ => (fallback(&cans, wnd, player_id), None),
    }
}

/// A seat with no action gets no label; a kan tile label only comes with
/// the kan label 42; a seat's own call or riichi is labelled as such.
pub proof fn lemma_action_label_shape(
    cans: ActionCandidate,
    wnd: Seq<Event>,
    player_id: u8,
    always_include_kan_select: bool,
    n_kakan: usize,
    n_ankan: usize,
)
    ensures
        ({
            let r = spec_action_label(cans, wnd, player_id, always_include_kan_select, n_kakan, n_ankan);
            &&& !(cans.can_discard || cans.spec_can_chi() || cans.can_pon || cans.spec_can_kan() || cans.can_riichi
                || cans.spec_can_agari() || cans.can_ryukyoku) ==> r == (None::<u8>, None::<u8>)
            &&& r.1 is Some ==> r.0 == Some(42u8)
            &&& (r.0 is Some && r.0 != Some(43u8) && r.0 != Some(45u8)) ==> !(answer(wnd) is Tsumo || answer(
                wnd,
            ) is Hora || answer(wnd) is EndKyoku || answer(wnd) is Nothing)
        }),
{
}

/// The label reads the seat's answer to `wnd[0]`, which is `wnd[1]`, or
/// `wnd[2]` when `wnd[1]` only accepts a riichi or reveals a dora
/// indicator: a discard is labelled with its tile, a riichi 37, the seat's
/// own chi 38, 39 or 40 as the called tile is the lowest, the middle or the
/// highest of the three (red fives as plain fives), its own pon 41, its own kan 42, and an abortive draw
/// that it could declare 44.
pub proof fn lemma_action_label_reads_answer(
    cans: ActionCandidate,
    wnd: Seq<Event>,
    player_id: u8,
    always_include_kan_select: bool,
    n_kakan: usize,
    n_ankan: usize,
    j: int,
)
    requires
        wnd.len() == 4,
        cans.can_discard || cans.spec_can_chi() || cans.can_pon || cans.spec_can_kan() || cans.can_riichi
            || cans.spec_can_agari() || cans.can_ryukyoku,
        j == 1 || (j == 2 && (wnd[1] is ReachAccepted || wnd[1] is Dora)),
    ensures
        ({
            let r = spec_action_label(cans, wnd, player_id, always_include_kan_select, n_kakan, n_ankan);
            &&& (wnd[j] matches Event::Dahai { pai, .. } ==> r == (Some(pai.id() as u8), None::<u8>))
            &&& (wnd[j] is Reach ==> r == (Some(37u8), None::<u8>))
            &&& (wnd[j] matches Event::Chi { actor, .. } && actor == player_id ==> (r.0 == Some(38u8)
                || r.0 == Some(39u8) || r.0 == Some(40u8)) && r.1 is None)
            &&& (wnd[j] matches Event::Chi { actor, pai, consumed, .. } && actor == player_id
                && spec_deaka(pai.id()) < spec_deaka(consumed@[0].id())
                && spec_deaka(pai.id()) < spec_deaka(consumed@[1].id()) ==> r.0 == Some(38u8))
            &&& (wnd[j] matches Event::Chi { actor, pai, consumed, .. } && actor == player_id
                && spec_deaka(pai.id()) > spec_deaka(consumed@[0].id())
                && spec_deaka(pai.id()) > spec_deaka(consumed@[1].id()) ==> r.0 == Some(40u8))
            &&& (wnd[j] matches Event::Chi { actor, pai, consumed, .. } && actor == player_id
                && spec_deaka(consumed@[0].id()) < spec_deaka(pai.id()) < spec_deaka(consumed@[1].id())
                ==> r.0 == Some(39u8))
            &&& (wnd[j] matches Event::Chi { actor, pai, consumed, .. } && actor == player_id
                && spec_deaka(consumed@[1].id()) < spec_deaka(pai.id()) < spec_deaka(consumed@[0].id())
                ==> r.0 == Some(39u8))
            &&& (wnd[j] matches Event::Pon { actor, .. } && actor == player_id ==> r == (Some(41u8), None::<u8>))
            &&& (wnd[j] matches Event::Daiminkan { actor, .. } && actor == player_id ==> r.0 == Some(42u8))
            &&& (wnd[j] is Kakan || wnd[j] is Ankan ==> r.0 == Some(42u8))
            &&& (wnd[j] is Ryukyoku && cans.can_ryukyoku ==> r == (Some(44u8), None::<u8>))
        }),
{
    let r = spec_action_label(cans, wnd, player_id, always_include_kan_select, n_kakan, n_ankan);
    if wnd[j] matches Event::Chi { actor, .. } && actor == player_id {
        match wnd[j] {
            Event::Chi { pai, consumed, .. } => {
                let t = spec_chi_type(consumed@[0].id(), consumed@[1].id(), pai.id());
                assert(chi_label(t) == 38u8 || chi_label(t) == 39u8 || chi_label(t) == 40u8);
            },
            _ => {},
        }
    }
}

} // verus!
