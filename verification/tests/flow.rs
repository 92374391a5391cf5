use riichi::arena::board::Board;
use riichi::arena::kyoku::{KyokuEnd, KyokuFlow, StepError, StepOutcome};
use riichi::mjai::Event;
use riichi::tile::Tile;

fn t(id: u8) -> Tile {
    Tile::try_from_u8(id).unwrap()
}

fn dealt(kyoku: u8) -> (Board, KyokuFlow) {
    let mut b = Board::default();
    b.kyoku = kyoku;
    b.scores = [25000; 4];
    b.init_from_seed((7, 11));
    let copy = Board {
        kyoku: b.kyoku,
        honba: b.honba,
        kyotaku: b.kyotaku,
        scores: b.scores,
        haipai: b.haipai,
        yama: b.yama.clone(),
        rinshan: b.rinshan.clone(),
        dora_indicators: b.dora_indicators.clone(),
        ura_indicators: b.ura_indicators.clone(),
    };
    (copy, KyokuFlow::from_board(b))
}

fn ok(r: Result<StepOutcome, StepError>) -> StepOutcome {
    match r {
        Ok(o) => o,
        Err(e) => panic!("step failed: {e:?}"),
    }
}

#[test]
fn deal_then_draws_and_discards() {
    let (b, mut f) = dealt(5);
    assert_eq!(f.oya, 1);
    assert_eq!(f.bakaze, t(28));
    let o = ok(f.step(&Event::Nothing, [0; 4], false));
    assert_eq!(o.before.len(), 2);
    match &o.before[0] {
        Event::StartKyoku { bakaze, dora_marker, kyoku, oya, scores, tehais, .. } => {
            assert_eq!(*bakaze, t(28));
            assert_eq!(*dora_marker, b.dora_indicators[4]);
            assert_eq!(*kyoku, 2);
            assert_eq!(*oya, 1);
            assert_eq!(*scores, [25000; 4]);
            assert_eq!(*tehais, b.haipai);
        }
        e => panic!("{e:?}"),
    }
    assert_eq!(o.before[1], Event::Tsumo { actor: 1, pai: b.yama[69] });
    assert!(!o.takes_chosen && o.end.is_none());
    assert_eq!(f.tiles_left, 69);
    assert_eq!(f.yama.len(), 69);
    assert_eq!(f.dora_indicators.len(), 4);

    let o = ok(f.step(&Event::Dahai { actor: 1, pai: b.yama[69], tsumogiri: true }, [0; 4], true));
    assert!(o.takes_chosen && o.before.is_empty() && o.end.is_none());
    assert_eq!(f.tsumo_actor, 2);

    let o = ok(f.step(&Event::Nothing, [0; 4], false));
    assert_eq!(o.before, vec![Event::Tsumo { actor: 2, pai: b.yama[68] }]);
    assert_eq!(f.tiles_left, 68);
}

#[test]
fn riichi_is_accepted_at_the_next_draw() {
    let (b, mut f) = dealt(0);
    ok(f.step(&Event::Nothing, [0; 4], false));
    let o = ok(f.step(&Event::Reach { actor: 0 }, [0; 4], false));
    assert!(o.takes_chosen);
    assert_eq!(f.riichi_to_be_accepted, Some(0));
    ok(f.step(&Event::Dahai { actor: 0, pai: t(5), tsumogiri: false }, [0; 4], false));
    let o = ok(f.step(&Event::Nothing, [0; 4], false));
    assert_eq!(o.before, vec![Event::ReachAccepted { actor: 0 }, Event::Tsumo { actor: 1, pai: b.yama[68] }]);
    assert_eq!(f.scores, [24000, 25000, 25000, 25000]);
    assert_eq!(f.kyotaku, 1);
    assert_eq!(f.accepted_riichis, 1);
}

#[test]
fn kans_reveal_dora_and_draw_from_rinshan() {
    let (b, mut f) = dealt(0);
    ok(f.step(&Event::Nothing, [0; 4], false));
    let consumed = [t(0), t(0), t(0), t(0)];
    let o = ok(f.step(&Event::Ankan { actor: 0, consumed }, [0; 4], false));
    assert!(o.before.is_empty());
    assert_eq!(o.after, vec![Event::Dora { dora_marker: b.dora_indicators[3] }]);
    assert_eq!(f.kans, 1);
    let o = ok(f.step(&Event::Nothing, [0; 4], false));
    assert_eq!(o.before, vec![Event::Tsumo { actor: 0, pai: b.rinshan[3] }]);
    assert_eq!(f.rinshan.len(), 3);

    // An open kan reveals its dora at the next discard.
    let kan = Event::Daiminkan { actor: 2, target: 0, pai: t(9), consumed: [t(9), t(9), t(9)] };
    let o = ok(f.step(&kan, [0; 4], false));
    assert!(o.takes_chosen && o.before.is_empty() && o.after.is_empty());
    assert!(f.need_new_dora_at_discard);
    ok(f.step(&Event::Nothing, [0; 4], false));
    let o = ok(f.step(&Event::Dahai { actor: 2, pai: t(9), tsumogiri: true }, [0; 4], false));
    assert_eq!(o.before, vec![Event::Dora { dora_marker: b.dora_indicators[2] }]);
    assert_eq!(f.tsumo_actor, 3);
}

#[test]
fn ends_and_errors() {
    let (_, mut f) = dealt(0);
    ok(f.step(&Event::Nothing, [0; 4], false));
    let o = ok(f.step(&Event::Hora { actor: 2, target: 0, deltas: None, ura_markers: None }, [0; 4], false));
    assert_eq!(o.end, Some(KyokuEnd::Hora { actor: 2, target: 0 }));
    let o = ok(f.step(&Event::Ryukyoku { deltas: None }, [0; 4], false));
    assert_eq!(o.end, Some(KyokuEnd::Abortive));
    assert_eq!(f.step(&Event::Tsumo { actor: 0, pai: t(1) }, [0; 4], false).err(), Some(StepError::UnexpectedEvent));

    f.accepted_riichis = 4;
    let o = ok(f.step(&Event::Nothing, [0; 4], false));
    assert_eq!(o.end, Some(KyokuEnd::Abortive));
    f.accepted_riichis = 0;

    f.tiles_left = 0;
    let o = ok(f.step(&Event::Nothing, [0; 4], false));
    assert_eq!(o.end, Some(KyokuEnd::Exhaustive));

    f.tiles_left = 3;
    f.yama.clear();
    assert_eq!(f.step(&Event::Nothing, [0; 4], false).err(), Some(StepError::EmptyWall));
    f.deal_from_rinshan = true;
    f.rinshan.clear();
    assert_eq!(f.step(&Event::Nothing, [0; 4], false).err(), Some(StepError::EmptyRinshan));
}

#[test]
fn four_winds_and_four_kans_abort() {
    let (_, mut f) = dealt(0);
    ok(f.step(&Event::Nothing, [0; 4], false));
    for actor in 0..3u8 {
        let o = ok(f.step(&Event::Dahai { actor, pai: t(27), tsumogiri: false }, [0; 4], true));
        assert!(o.end.is_none());
    }
    let o = ok(f.step(&Event::Dahai { actor: 3, pai: t(27), tsumogiri: false }, [0; 4], false));
    assert_eq!(o.end, Some(KyokuEnd::Abortive));

    let (_, mut f) = dealt(0);
    ok(f.step(&Event::Nothing, [0; 4], false));
    f.kans = 4;
    ok(f.step(&Event::Dahai { actor: 0, pai: t(1), tsumogiri: false }, [2, 2, 0, 0], false));
    assert!(f.check_four_kan);
    let o = ok(f.step(&Event::Nothing, [2, 2, 0, 0], false));
    assert_eq!(o.end, Some(KyokuEnd::Abortive));
}

fn shown(evs: &[Event]) -> Vec<u8> {
    evs.iter()
        .filter_map(|e| match e {
            Event::Tsumo { pai, .. } => Some(pai.as_u8()),
            Event::Dora { dora_marker } => Some(dora_marker.as_u8()),
            Event::StartKyoku { dora_marker, .. } => Some(dora_marker.as_u8()),
            _ => None,
        })
        .collect()
}

fn piles(f: &KyokuFlow) -> Vec<u8> {
    f.yama.iter().chain(&f.rinshan).chain(&f.dora_indicators).map(|t| t.as_u8()).collect()
}

#[test]
fn steps_keep_every_tile() {
    let (_, mut f) = dealt(2);
    let mut seen = vec![];
    let kan = Event::Ankan { actor: 2, consumed: [t(0), t(0), t(0), t(0)] };
    let script = [
        Event::Nothing,
        Event::Dahai { actor: 2, pai: t(5), tsumogiri: false },
        Event::Nothing,
        kan,
        Event::Nothing,
        Event::Dahai { actor: 2, pai: t(6), tsumogiri: false },
        Event::Nothing,
    ];
    let start = {
        let mut v = piles(&f);
        v.sort();
        v
    };
    for ev in &script {
        let o = ok(f.step(ev, [0; 4], false));
        seen.extend(shown(&o.before));
        seen.extend(shown(&o.after));
        let mut now = piles(&f);
        now.extend(&seen);
        now.sort();
        assert_eq!(now, start);
    }
    assert_eq!(seen.len(), 1 + 1 + 1 + 1 + 1 + 1);
}
