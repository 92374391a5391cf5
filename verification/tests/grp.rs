use riichi::dataset::{GrpError, GrpRecord};
use riichi::mjai::Event;
use riichi::tile::Tile;

fn t(id: u8) -> Tile {
    Tile::try_from_u8(id).unwrap()
}

fn start(bakaze: u8, kyoku: u8, honba: u8, kyotaku: u8, scores: [i32; 4]) -> Event {
    Event::StartKyoku {
        bakaze: t(bakaze),
        dora_marker: t(0),
        kyoku,
        honba,
        kyotaku,
        oya: 0,
        scores,
        tehais: [[t(0); 13]; 4],
    }
}

fn game(last_deltas: Option<[i32; 4]>) -> Vec<Event> {
    vec![
        Event::StartGame { names: Default::default(), seed: None },
        start(27, 1, 0, 0, [25000; 4]),
        Event::ReachAccepted { actor: 1 },
        Event::Hora { actor: 0, target: 2, deltas: Some([9000, 0, -8000, 0]), ura_markers: None },
        Event::EndKyoku,
        start(28, 2, 1, 0, [34000, 24000, 17000, 25000]),
        Event::ReachAccepted { actor: 3 },
        Event::Ryukyoku { deltas: last_deltas },
        Event::EndKyoku,
        Event::EndGame,
    ]
}

#[test]
fn final_scores_and_ranks() {
    let r = GrpRecord::load_events(&game(Some([1500, -1500, -1500, 1500]))).unwrap();
    // The riichi stick left on the table goes to the first place.
    assert_eq!(r.final_scores, [36500, 22500, 15500, 25500]);
    assert_eq!(r.rank_by_player, [0, 2, 3, 1]);
    assert_eq!(
        r.kyokus,
        vec![[0, 0, 0, 25000, 25000, 25000, 25000], [5, 1, 0, 34000, 24000, 17000, 25000]]
    );
}

#[test]
fn grand_kyoku_numbers() {
    let events = vec![start(29, 3, 0, 2, [25000; 4]), Event::Ryukyoku { deltas: Some([0; 4]) }];
    let r = GrpRecord::load_events(&events).unwrap();
    assert_eq!(r.kyokus, vec![[10, 0, 2, 25000, 25000, 25000, 25000]]);
    // Scores add up to 100000: the two sticks on the table stay there.
    assert_eq!(r.final_scores, [25000; 4]);
    assert_eq!(r.rank_by_player, [0, 1, 2, 3]);
}

#[test]
fn missing_deltas_and_no_kyoku() {
    assert!(matches!(GrpRecord::load_events(&game(None)), Err(GrpError::MissingDeltas)));
    assert!(matches!(
        GrpRecord::load_events(&[Event::EndGame, Event::Ryukyoku { deltas: Some([0; 4]) }]),
        Err(GrpError::NoStartKyoku)
    ));
    assert!(matches!(GrpRecord::load_events(&[Event::Ryukyoku { deltas: None }]), Err(GrpError::MissingDeltas)));
    // Wins before the last kyoku need no deltas.
    let mut events = game(Some([0; 4]));
    events[3] = Event::Hora { actor: 0, target: 2, deltas: None, ura_markers: None };
    assert!(GrpRecord::load_events(&events).is_ok());
}

#[test]
fn can_load_checks_machine_limits() {
    assert!(GrpRecord::can_load(&game(Some([1500, -1500, -1500, 1500]))));
    assert!(GrpRecord::can_load(&game(None)));
    let huge = vec![
        start(27, 1, 0, 0, [i32::MAX, 0, 0, 0]),
        Event::Ryukyoku { deltas: Some([1, 0, 0, -1]) },
    ];
    assert!(!GrpRecord::can_load(&huge));
    let bad_kyoku = vec![start(27, 0, 0, 0, [25000; 4])];
    assert!(!GrpRecord::can_load(&bad_kyoku));
    let bad_actor = vec![start(27, 1, 0, 0, [25000; 4]), Event::ReachAccepted { actor: 4 }];
    assert!(!GrpRecord::can_load(&bad_actor));
    // A riichi by an unknown seat before the last kyoku is never read.
    let early = vec![Event::ReachAccepted { actor: 7 }, start(27, 1, 0, 0, [25000; 4])];
    assert!(GrpRecord::can_load(&early));
}
