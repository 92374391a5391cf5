use riichi::dataset::invisible::fill_parts;
use riichi::arena::board::Board;
use riichi::dataset::Invisible;
use riichi::mjai::Event;
use riichi::tile::Tile;

fn t(id: u8) -> Tile {
    Tile::try_from_u8(id).unwrap()
}

fn ids(v: &[Tile]) -> Vec<u8> {
    v.iter().map(|t| t.as_u8()).collect()
}

/// A kyoku dealt from `seed`, logged with its first draws and a kan.
fn logged_kyoku(seed: (u64, u64)) -> (Board, Vec<Event>) {
    let mut board = Board::default();
    board.init_from_seed(seed);
    let mut events = vec![Event::StartKyoku {
        bakaze: t(27),
        dora_marker: board.dora_indicators[4],
        kyoku: 1,
        honba: 0,
        kyotaku: 0,
        oya: 0,
        scores: [25000; 4],
        tehais: board.haipai,
    }];
    // Three draws from the wall, then a kan and a draw from the rinshan.
    for k in 0..3 {
        events.push(Event::Tsumo { actor: 0, pai: board.yama[69 - k] });
    }
    events.push(Event::Ankan { actor: 0, consumed: [t(0); 4] });
    events.push(Event::Tsumo { actor: 0, pai: board.rinshan[3] });
    events.push(Event::Dora { dora_marker: board.dora_indicators[3] });
    events.push(Event::Hora { actor: 0, target: 0, deltas: None, ura_markers: Some(vec![board.ura_indicators[0], board.ura_indicators[1]]) });
    events.push(Event::EndKyoku);
    (board, events)
}

#[test]
fn seeded_game_is_dealt_again() {
    let seed = (7, 11);
    let (board, events) = logged_kyoku(seed);
    let mut game = vec![Event::StartGame { names: Default::default(), seed: Some(seed) }];
    game.extend(events);
    assert!(Invisible::can_read(&game, true));
    let invs = Invisible::new(&game, true);
    assert_eq!(invs.len(), 1);
    let inv = &invs[0];
    let mut yama = board.yama.clone();
    yama.reverse();
    assert_eq!(ids(&inv.yama), ids(&yama));
    assert_eq!(inv.rinshan.len(), 4);
    assert_eq!(inv.rinshan[0], board.rinshan[3]);
    assert_eq!(inv.dora_indicators[0], board.dora_indicators[4]);
    assert_eq!(ids(&inv.ura_indicators), ids(&board.ura_indicators));
}

#[test]
fn unseeded_game_keeps_known_tiles_and_fills_the_rest() {
    let seed = (3, 5);
    let (board, events) = logged_kyoku(seed);
    let mut game = vec![Event::StartGame { names: Default::default(), seed: Some(seed) }];
    game.extend(events);
    assert!(Invisible::can_read(&game, false));
    let invs = Invisible::new(&game, false);
    assert_eq!(invs.len(), 1);
    let inv = &invs[0];
    assert_eq!(inv.yama.len(), 70);
    assert_eq!(inv.rinshan.len(), 4);
    assert_eq!(inv.dora_indicators.len(), 5);
    assert_eq!(inv.ura_indicators.len(), 5);
    // The tiles seen come first, in order.
    assert_eq!(ids(&inv.yama[..3]), ids(&[board.yama[69], board.yama[68], board.yama[67]]));
    assert_eq!(inv.rinshan[0], board.rinshan[3]);
    assert_eq!(ids(&inv.dora_indicators[..2]), ids(&[board.dora_indicators[4], board.dora_indicators[3]]));
    assert_eq!(ids(&inv.ura_indicators[..2]), ids(&[board.ura_indicators[0], board.ura_indicators[1]]));
    // Together with the hands they hold every tile once.
    let mut all: Vec<u8> = ids(&inv.yama);
    all.extend(ids(&inv.rinshan));
    all.extend(ids(&inv.dora_indicators));
    all.extend(ids(&inv.ura_indicators));
    for h in &board.haipai {
        all.extend(ids(h));
    }
    all.sort();
    let mut expected = vec![];
    for tid in 0..34u8 {
        let n = if tid == 4 || tid == 13 || tid == 22 { 3 } else { 4 };
        for _ in 0..n {
            expected.push(tid);
        }
    }
    expected.extend([34, 35, 36]);
    assert_eq!(all, expected);
}

#[test]
fn unreadable_logs() {
    // A fifth copy of a tile.
    let (_, mut events) = logged_kyoku((1, 1));
    let first = match &events[0] {
        Event::StartKyoku { tehais, .. } => tehais[0][0],
        _ => unreachable!(),
    };
    for _ in 0..4 {
        events.insert(1, Event::Tsumo { actor: 0, pai: first });
    }
    assert!(!Invisible::can_read(&events, false));

    // A kyoku that ends with tiles that cannot fill it.
    let (_, events) = logged_kyoku((1, 1));
    let cut = events[..events.len() - 1].to_vec();
    let mut bad = cut.clone();
    bad.push(Event::Dora { dora_marker: t(37) });
    assert!(!Invisible::can_read(&bad, false));

    // A seeded kyoku with a kyoku number below one in the east round.
    let game = vec![
        Event::StartGame { names: Default::default(), seed: Some((1, 2)) },
        Event::StartKyoku {
            bakaze: t(27),
            dora_marker: t(0),
            kyoku: 0,
            honba: 0,
            kyotaku: 0,
            oya: 0,
            scores: [25000; 4],
            tehais: [[t(0); 13]; 4],
        },
    ];
    assert!(!Invisible::can_read(&game, true));
    assert!(Invisible::can_read(&game[..1], true));
}

#[test]
fn fill_parts_takes_from_the_end() {
    let cur = Invisible {
        yama: (0..68).map(|i| t((i % 27) as u8)).collect(),
        rinshan: vec![t(27), t(28)],
        dora_indicators: vec![t(29), t(30), t(31), t(32)],
        ura_indicators: vec![],
    };
    // 2 + 2 + 1 + 5 tiles are missing.
    let filler: Vec<Tile> = (0..10).map(|i| t(i as u8)).collect();
    let r = fill_parts(cur, filler);
    assert_eq!(r.yama.len(), 70);
    assert_eq!(ids(&r.yama[68..]), vec![9, 8]);
    assert_eq!(ids(&r.rinshan), vec![27, 28, 7, 6]);
    assert_eq!(ids(&r.dora_indicators), vec![29, 30, 31, 32, 5]);
    assert_eq!(ids(&r.ura_indicators), vec![4, 3, 2, 1, 0]);
}
