use riichi::chi_type::ChiType;
use riichi::mjai::{BoundedU8, Event, OutOfBoundError};
use riichi::tile::Tile;

fn t(id: u8) -> Tile {
    Tile::try_from_u8(id).unwrap()
}

#[test]
fn actor_of_events() {
    assert_eq!(Event::Tsumo { actor: 2, pai: t(0) }.actor(), Some(2));
    assert_eq!(Event::Dahai { actor: 1, pai: t(5), tsumogiri: true }.actor(), Some(1));
    assert_eq!(Event::Reach { actor: 3 }.actor(), Some(3));
    assert_eq!(
        Event::Hora { actor: 0, target: 1, deltas: None, ura_markers: None }.actor(),
        Some(0)
    );
    assert_eq!(Event::Dora { dora_marker: t(3) }.actor(), None);
    assert_eq!(Event::Ryukyoku { deltas: None }.actor(), None);
    assert_eq!(Event::Nothing.actor(), None);
    assert_eq!(Event::EndGame.actor(), None);
}

#[test]
fn in_game_announces() {
    assert!(Event::ReachAccepted { actor: 1 }.is_in_game_announce());
    assert!(Event::Dora { dora_marker: t(3) }.is_in_game_announce());
    assert!(Event::Hora { actor: 0, target: 0, deltas: None, ura_markers: None }.is_in_game_announce());
    assert!(!Event::Reach { actor: 1 }.is_in_game_announce());
    assert!(!Event::Tsumo { actor: 1, pai: t(3) }.is_in_game_announce());
    assert!(!Event::EndKyoku.is_in_game_announce());
}

#[test]
fn augment_swaps_suits_in_events() {
    let mut ev = Event::Chi { actor: 1, target: 0, pai: t(34), consumed: [t(3), t(5)] };
    ev.augment();
    assert_eq!(ev, Event::Chi { actor: 1, target: 0, pai: t(35), consumed: [t(12), t(14)] });

    let mut ev = Event::Hora { actor: 1, target: 2, deltas: Some([1, 2, 3, 4]), ura_markers: Some(vec![t(9), t(20), t(27)]) };
    ev.augment();
    assert_eq!(
        ev,
        Event::Hora { actor: 1, target: 2, deltas: Some([1, 2, 3, 4]), ura_markers: Some(vec![t(0), t(20), t(27)]) }
    );

    let mut ev = Event::Reach { actor: 2 };
    ev.augment();
    assert_eq!(ev, Event::Reach { actor: 2 });
}

#[test]
fn augment_twice_is_identity() {
    let tehais = [[t(0); 13], [t(9); 13], [t(34); 13], [t(30); 13]];
    let orig = Event::StartKyoku {
        bakaze: t(27),
        dora_marker: t(13),
        kyoku: 1,
        honba: 0,
        kyotaku: 0,
        oya: 0,
        scores: [25000; 4],
        tehais,
    };
    let mut ev = orig.clone();
    ev.augment();
    assert_ne!(ev, orig);
    if let Event::StartKyoku { dora_marker, tehais, .. } = &ev {
        assert_eq!(dora_marker.as_u8(), 4);
        assert_eq!(tehais[0][0].as_u8(), 9);
        assert_eq!(tehais[1][12].as_u8(), 0);
        assert_eq!(tehais[2][5].as_u8(), 35);
        assert_eq!(tehais[3][0].as_u8(), 30);
    }
    ev.augment();
    assert_eq!(ev, orig);
}

#[test]
fn bounded_u8_checks_range() {
    assert_eq!(BoundedU8::<1, 4>(1).try_into_u8(), Ok(1));
    assert_eq!(BoundedU8::<1, 4>(4).try_into_u8(), Ok(4));
    assert_eq!(BoundedU8::<1, 4>(0).try_into_u8(), Err(OutOfBoundError(0)));
    assert_eq!(BoundedU8::<0, 3>(5).try_into_u8(), Err(OutOfBoundError(5)));
}

#[test]
fn chi_types() {
    assert!(matches!(ChiType::new([t(1), t(2)], t(0)), ChiType::Low));
    assert!(matches!(ChiType::new([t(2), t(0)], t(1)), ChiType::Mid));
    assert!(matches!(ChiType::new([t(0), t(1)], t(2)), ChiType::High));
    // A red five counts as a plain five.
    assert!(matches!(ChiType::new([t(34), t(5)], t(3)), ChiType::Low));
    assert!(matches!(ChiType::new([t(3), t(5)], t(34)), ChiType::Mid));
    assert!(matches!(ChiType::new([t(2), t(3)], t(34)), ChiType::High));
}
