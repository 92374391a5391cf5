use riichi::dataset::label::action_label;
use riichi::mjai::Event;
use riichi::state::ActionCandidate;
use riichi::tile::Tile;

fn t(id: u8) -> Tile {
    Tile::try_from_u8(id).unwrap()
}

fn discard_only() -> ActionCandidate {
    ActionCandidate { can_discard: true, ..Default::default() }
}

#[test]
fn labels_of_own_actions() {
    let tsumo = Event::Tsumo { actor: 0, pai: t(3) };
    let wnd = [tsumo.clone(), Event::Dahai { actor: 0, pai: t(34), tsumogiri: false }, Event::Nothing, Event::Nothing];
    assert_eq!(action_label(discard_only(), &wnd, 0, false, 0, 0), (Some(34), None));

    let wnd = [tsumo.clone(), Event::Reach { actor: 0 }, Event::Nothing, Event::Nothing];
    assert_eq!(action_label(discard_only(), &wnd, 0, false, 0, 0), (Some(37), None));

    let ankan = Event::Ankan { actor: 0, consumed: [t(34), t(4), t(4), t(4)] };
    let wnd = [tsumo.clone(), ankan.clone(), Event::Nothing, Event::Nothing];
    assert_eq!(action_label(discard_only(), &wnd, 0, false, 0, 1), (Some(42), None));
    assert_eq!(action_label(discard_only(), &wnd, 0, false, 0, 2), (Some(42), Some(4)));
    assert_eq!(action_label(discard_only(), &wnd, 0, true, 0, 1), (Some(42), Some(4)));

    let kakan = Event::Kakan { actor: 0, pai: t(9), consumed: [t(9), t(9), t(9)] };
    let wnd = [tsumo.clone(), kakan, Event::Nothing, Event::Nothing];
    assert_eq!(action_label(discard_only(), &wnd, 0, false, 2, 0), (Some(42), Some(9)));

    // A dora revealed in between is skipped.
    let wnd = [tsumo, Event::Dora { dora_marker: t(1) }, Event::Dahai { actor: 0, pai: t(8), tsumogiri: true }, Event::Nothing];
    assert_eq!(action_label(discard_only(), &wnd, 0, false, 0, 0), (Some(8), None));
}

#[test]
fn labels_of_calls() {
    let discard = Event::Dahai { actor: 3, pai: t(4), tsumogiri: false };
    let cans = ActionCandidate { can_chi_low: true, can_chi_mid: true, can_pon: true, target_actor: 3, ..Default::default() };
    let chi = |consumed: [Tile; 2]| Event::Chi { actor: 0, target: 3, pai: t(4), consumed };
    for (consumed, label) in [([t(5), t(6)], 38), ([t(3), t(5)], 39), ([t(2), t(3)], 40)] {
        let wnd = [discard.clone(), chi(consumed), Event::Nothing, Event::Nothing];
        assert_eq!(action_label(cans, &wnd, 0, false, 0, 0), (Some(label), None));
    }
    let pon = Event::Pon { actor: 0, target: 3, pai: t(4), consumed: [t(4), t(4)] };
    let wnd = [discard.clone(), pon, Event::Nothing, Event::Nothing];
    assert_eq!(action_label(cans, &wnd, 0, false, 0, 0), (Some(41), None));

    let kan = Event::Daiminkan { actor: 0, target: 3, pai: t(34), consumed: [t(4), t(4), t(4)] };
    let wnd = [discard.clone(), kan, Event::Nothing, Event::Nothing];
    let cans_kan = ActionCandidate { can_daiminkan: true, ..cans };
    assert_eq!(action_label(cans_kan, &wnd, 0, false, 0, 0), (Some(42), None));
    assert_eq!(action_label(cans_kan, &wnd, 0, true, 0, 0), (Some(42), Some(4)));

    // Declined: the next seat draws.
    let wnd = [discard.clone(), Event::Tsumo { actor: 0, pai: t(1) }, Event::Nothing, Event::Nothing];
    assert_eq!(action_label(cans, &wnd, 0, false, 0, 0), (Some(45), None));
    // Another seat's pon takes the tile: a pon was possible but not declined by a ron.
    let other_pon = Event::Pon { actor: 1, target: 3, pai: t(4), consumed: [t(4), t(4)] };
    let wnd = [discard.clone(), other_pon, Event::Nothing, Event::Nothing];
    assert_eq!(action_label(cans, &wnd, 0, false, 0, 0), (Some(45), None));
    // Only chi was possible and another seat called: no label.
    let chi_only = ActionCandidate { can_chi_low: true, target_actor: 3, ..Default::default() };
    let other_pon = Event::Pon { actor: 1, target: 3, pai: t(4), consumed: [t(4), t(4)] };
    let wnd = [discard.clone(), other_pon, Event::Nothing, Event::Nothing];
    assert_eq!(action_label(chi_only, &wnd, 0, false, 0, 0), (None, None));
}

#[test]
fn labels_of_wins_and_draws() {
    let discard = Event::Dahai { actor: 3, pai: t(4), tsumogiri: false };
    let cans = ActionCandidate { can_ron_agari: true, target_actor: 3, ..Default::default() };
    let hora = |actor: u8| Event::Hora { actor, target: 3, deltas: None, ura_markers: None };
    let wnd = [discard.clone(), hora(1), hora(0), Event::EndKyoku];
    assert_eq!(action_label(cans, &wnd, 0, false, 0, 0), (Some(43), None));
    // Someone else won and this seat did not: the ron was interrupted.
    let wnd = [discard.clone(), hora(1), Event::EndKyoku, hora(0)];
    assert_eq!(action_label(cans, &wnd, 0, false, 0, 0), (None, None));
    // Declined the ron.
    let wnd = [discard, Event::Tsumo { actor: 0, pai: t(1) }, Event::Nothing, Event::Nothing];
    assert_eq!(action_label(cans, &wnd, 0, false, 0, 0), (Some(45), None));

    let cans = ActionCandidate { can_discard: true, can_ryukyoku: true, ..Default::default() };
    let wnd = [Event::Tsumo { actor: 0, pai: t(1) }, Event::Ryukyoku { deltas: None }, Event::Nothing, Event::Nothing];
    assert_eq!(action_label(cans, &wnd, 0, false, 0, 0), (Some(44), None));
    // A seat with no action has no label.
    assert_eq!(action_label(ActionCandidate::default(), &wnd, 0, false, 0, 0), (None, None));
}
