use riichi::tile::Tile;
use riichi::arena::board::Board;

fn all_ids(b: &Board) -> Vec<u8> {
    let mut v = vec![];
    for h in &b.haipai {
        v.extend(h.iter().map(|t| t.as_u8()));
    }
    v.extend(b.rinshan.iter().map(|t| t.as_u8()));
    v.extend(b.dora_indicators.iter().map(|t| t.as_u8()));
    v.extend(b.ura_indicators.iter().map(|t| t.as_u8()));
    v.extend(b.yama.iter().map(|t| t.as_u8()));
    v
}

#[test]
fn seeded_board_holds_every_tile_once() {
    let mut b = Board::default();
    b.init_from_seed((1, 2));
    assert_eq!(b.rinshan.len(), 4);
    assert_eq!(b.dora_indicators.len(), 5);
    assert_eq!(b.ura_indicators.len(), 5);
    assert_eq!(b.yama.len(), 70);
    let mut ids = all_ids(&b);
    assert_eq!(ids.len(), 136);
    ids.sort();
    let mut expected = vec![];
    for tid in 0..34u8 {
        let n = if tid == 4 || tid == 13 || tid == 22 { 3 } else { 4 };
        for _ in 0..n {
            expected.push(tid);
        }
    }
    expected.extend([34, 35, 36]);
    expected.sort();
    assert_eq!(ids, expected);
}

#[test]
fn seeded_board_is_deterministic_and_shuffled() {
    let mut a = Board::default();
    a.init_from_seed((12345, 67890));
    let mut b = Board::default();
    b.init_from_seed((12345, 67890));
    assert_eq!(all_ids(&a), all_ids(&b));

    let mut sorted = all_ids(&a);
    sorted.sort();
    assert_ne!(all_ids(&a), sorted);

    let mut c = Board::default();
    c.kyoku = 1;
    c.init_from_seed((12345, 67890));
    assert_ne!(all_ids(&a), all_ids(&c));
    assert_eq!(c.kyoku, 1);

    let mut d = Board::default();
    d.init_from_seed((12346, 67890));
    assert_ne!(all_ids(&a), all_ids(&d));
}

#[test]
fn deal_from_wall_cuts_in_order() {
    let mut wall = [Tile::try_from_u8(0).unwrap(); 136];
    for (i, w) in wall.iter_mut().enumerate() {
        *w = Tile::try_from_u8((i % 34) as u8).unwrap();
    }
    let mut b = Board::default();
    b.kyoku = 3;
    b.honba = 2;
    b.kyotaku = 1;
    b.scores = [25000, 24000, 26000, 25000];
    b.deal_from_wall(&wall);
    assert_eq!(b.kyoku, 3);
    assert_eq!(b.honba, 2);
    assert_eq!(b.kyotaku, 1);
    assert_eq!(b.scores, [25000, 24000, 26000, 25000]);
    for seat in 0..4 {
        assert_eq!(&b.haipai[seat][..], &wall[seat * 13..seat * 13 + 13]);
    }
    assert_eq!(&b.rinshan[..], &wall[52..56]);
    assert_eq!(&b.dora_indicators[..], &wall[56..61]);
    assert_eq!(&b.ura_indicators[..], &wall[61..66]);
    assert_eq!(&b.yama[..], &wall[66..136]);
    let ids = all_ids(&b);
    let expected: Vec<u8> = wall.iter().map(|t| t.as_u8()).collect();
    assert_eq!(ids, expected);
}
