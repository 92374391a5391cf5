use riichi::algo::sp::calc::sp_args_ok;
use riichi::algo::shanten::{calc_all, calc_chitoi, calc_kokushi, calc_normal};
use riichi::hand::hand;

#[test]
fn calc_3n_plus_1() {
    let tehai = hand("1111m 333p 222s 444z").unwrap();
    assert_eq!(calc_all(&tehai, 4), 1);
    let tehai = hand("147m 258p 369s 1234z").unwrap();
    assert_eq!(calc_all(&tehai, 4), 6);
    let tehai = hand("468m 33346p 7s").unwrap();
    assert_eq!(calc_all(&tehai, 3), 2);
    let tehai = hand("147m 258p 3s").unwrap();
    assert_eq!(calc_all(&tehai, 2), 4);
    let tehai = hand("4455s").unwrap();
    assert_eq!(calc_all(&tehai, 1), 0);
    let tehai = hand("7z").unwrap();
    assert_eq!(calc_all(&tehai, 0), 0);
    let tehai = hand("15559m 19p 19s 1234z").unwrap();
    assert_eq!(calc_all(&tehai, 4), 3);
    let tehai = hand("9999m 6677p 88s 355z").unwrap();
    assert_eq!(calc_all(&tehai, 4), 2);
    let tehai = hand("19m 19p 159s 123456z").unwrap();
    assert_eq!(calc_all(&tehai, 4), 1);
}

#[test]
fn calc_3n_plus_2() {
    let tehai = hand("2344456m 14p 127s 2z 7p").unwrap();
    assert_eq!(calc_all(&tehai, 4), 3);
    let tehai = hand("2344456m 14p 127s 2z 5p").unwrap();
    assert_eq!(calc_all(&tehai, 4), 2);
    let tehai = hand("344455667p 1139s 9m").unwrap();
    assert_eq!(calc_all(&tehai, 4), 2);
    let tehai = hand("344455667p 1139s 9p").unwrap();
    assert_eq!(calc_all(&tehai, 4), 1);
    let tehai = hand("122334m 678p 37s 22z 5s").unwrap();
    assert_eq!(calc_all(&tehai, 4), 0);
    let tehai = hand("122334m 678p 12s 22z 4s").unwrap();
    assert_eq!(calc_all(&tehai, 4), 0);
    let tehai = hand("12223456m 78889p 2m").unwrap();
    assert_eq!(calc_all(&tehai, 4), -1);
    let tehai = hand("34778p").unwrap();
    assert_eq!(calc_all(&tehai, 1), 0);
    let tehai = hand("34s").unwrap();
    assert_eq!(calc_all(&tehai, 0), 0);
    let tehai = hand("55m").unwrap();
    assert_eq!(calc_all(&tehai, 0), -1);
}

#[test]
fn chitoi_and_kokushi() {
    let tehai = hand("1122m 3344p 5566s 7z").unwrap();
    assert_eq!(calc_chitoi(&tehai), 0);
    let tehai = hand("1122m 3344p 5566s 77z").unwrap();
    assert_eq!(calc_chitoi(&tehai), -1);
    let tehai = hand("1111m 2222p 3333s 4z").unwrap();
    // 3 pairs, 4 kinds: 7 - 3 + 3 - 1
    assert_eq!(calc_chitoi(&tehai), 6);
    let tehai = hand("19m 19p 19s 1234567z").unwrap();
    assert_eq!(calc_kokushi(&tehai), 0);
    let tehai = hand("19m 19p 19s 12345677z").unwrap();
    assert_eq!(calc_kokushi(&tehai), -1);
    let tehai = hand("19m 19p 19s 1234567z 1m").unwrap();
    assert_eq!(calc_all(&tehai, 4), -1);
    let tehai = hand("1122m 3344p 5566s 77z").unwrap();
    assert_eq!(calc_all(&tehai, 4), -1);
}

#[test]
fn normal_only_counts_melds_and_pair() {
    let tehai = hand("1122m 3344p 5566s 77z").unwrap();
    // seven pairs is not a regular complete hand
    assert!(calc_normal(&tehai, 4) >= 0);
    let tehai = hand("123m 456p 789s 111z 22z").unwrap();
    assert_eq!(calc_normal(&tehai, 4), -1);
    let tehai = hand("").unwrap();
    // nothing in hand: 4 melds and a pair are 14 tiles away
    assert_eq!(calc_normal(&tehai, 4), 13);
}

#[test]
fn single_suit_hands() {
    let tehai = hand("11112222333344m").unwrap();
    assert_eq!(calc_normal(&tehai, 4), -1);
    let tehai = hand("1112345678999m").unwrap();
    assert_eq!(calc_normal(&tehai, 4), 0);
}

fn draw(tehai: &[u8; 34], id: usize) -> [u8; 34] {
    let mut t = *tehai;
    t[id] += 1;
    t
}

#[test]
fn drawing_lowers_shanten_by_at_most_one() {
    let hands = [
        ("123m 456p 789s 1122z", 4u8),
        ("1122m 3344p 5566s 7z", 4),
        ("19m 19p 19s 1234567z", 4),
        ("147m 258p 369s 1234z", 4),
        ("1111m 333p 222s 444z", 4),
        ("468m 33346p 7s", 3),
        ("4455s", 1),
    ];
    for (s, m) in hands {
        let tehai = hand(s).unwrap();
        let before = calc_all(&tehai, m);
        for id in 0..34 {
            if tehai[id] >= 4 {
                continue;
            }
            let after = calc_all(&draw(&tehai, id), m);
            assert!(after == before || after == before - 1, "{s} + {id}: {before} -> {after}");
        }
    }
    // tenpai to complete
    let tehai = hand("123m 456p 789s 1122z").unwrap();
    assert_eq!(calc_all(&tehai, 4), 0);
    assert_eq!(calc_all(&draw(&tehai, 27), 4), -1);
    assert_eq!(calc_all(&draw(&tehai, 33), 4), 0);
}

#[test]
fn thirteen_tiles_take_the_plain_minimum() {
    for s in ["1122m 3344p 5566s 7z", "19m 19p 19s 1234567z", "147m 258p 369s 1234z", "9999m 6677p 88s 355z"] {
        let tehai = hand(s).unwrap();
        let plain = calc_normal(&tehai, 4).min(calc_chitoi(&tehai)).min(calc_kokushi(&tehai));
        assert_eq!(calc_all(&tehai, 4), plain);
    }
}

#[test]
fn exchanging_suits_keeps_the_regular_distance() {
    for s in ["2344456m 14p 127s 2z", "344455667p 1139s 9m", "122334m 678p 37s 22z", "147m 258p 3s"] {
        let tehai = hand(s).unwrap();
        let len_div3 = (tehai.iter().map(|&c| c as usize).sum::<usize>() / 3) as u8;
        for (x, y) in [(0usize, 1usize), (1, 2), (0, 2)] {
            let mut swapped = tehai;
            for j in 0..9 {
                swapped.swap(9 * x + j, 9 * y + j);
            }
            assert_eq!(calc_normal(&swapped, len_div3), calc_normal(&tehai, len_div3));
        }
    }
}

#[test]
fn reversed_suits_and_exchanged_honors_keep_the_regular_distance() {
    for s in ["2344456m 14p 127s 2z", "344455667p 1139s 9m", "122334m 678p 37s 22z", "9999m 6677p 88s 355z", "1111m 333p 222s 444z"] {
        let tehai = hand(s).unwrap();
        let len_div3 = (tehai.iter().map(|&c| c as usize).sum::<usize>() / 3) as u8;
        let base = calc_normal(&tehai, len_div3);
        for x in 0..3 {
            let mut rev = tehai;
            rev[9 * x..9 * x + 9].reverse();
            assert_eq!(calc_normal(&rev, len_div3), base, "{s} suit {x} reversed");
        }
        for x in 27..34 {
            for y in 27..34 {
                let mut sw = tehai;
                sw.swap(x, y);
                assert_eq!(calc_normal(&sw, len_div3), base, "{s} honors {x} {y}");
            }
        }
    }
}

#[test]
fn fourteen_tiles_take_the_plain_minimum_off_tenpai() {
    for s in [
        "2344456m 14p 127s 2z 7p",
        "344455667p 1139s 9m",
        "12223456m 78889p 2m",
        "1122m 3344p 5566s 77z",
        "19m 19p 19s 12345677z",
        "1122m 3344p 5566s 79z",
    ] {
        let tehai = hand(s).unwrap();
        let normal = calc_normal(&tehai, 4);
        if normal == 0 {
            continue;
        }
        let plain = normal.min(calc_chitoi(&tehai)).min(calc_kokushi(&tehai));
        assert_eq!(calc_all(&tehai, 4), plain, "{s}");
    }
}

#[test]
fn small_hands_read_the_same_backwards() {
    // Up to 13 tiles, every hand is inside the tables.
    for s in ["1111222233334m", "1112345678999m", "2344456m 14p 127s"] {
        let tehai = hand(s).unwrap();
        let len_div3 = (tehai.iter().map(|&c| c as usize).sum::<usize>() / 3) as u8;
        let mut rev = tehai;
        rev[0..9].reverse();
        assert_eq!(calc_normal(&rev, len_div3), calc_normal(&tehai, len_div3), "{s}");
    }
}

#[test]
fn fourteen_tile_hands_past_the_table_are_complete() {
    for s in ["1111222233334m 5m", "111122223333m 44m", "1111222233334p 5p", "111122223333s 44s"] {
        let tehai = hand(s).unwrap();
        assert_eq!(calc_normal(&tehai, 4), -1, "{s}");
        assert_eq!(calc_all(&tehai, 4), -1, "{s}");
        let mut rev = tehai;
        for x in 0..3 {
            rev[9 * x..9 * x + 9].reverse();
        }
        assert_eq!(calc_normal(&rev, 4), -1, "{s} reversed");
    }
}

#[test]
fn sp_arguments() {
    assert!(sp_args_ok(0, 1));
    assert!(sp_args_ok(3, 17));
    assert!(!sp_args_ok(-1, 5));
    assert!(!sp_args_ok(2, 0));
    assert!(!sp_args_ok(2, 18));
}

#[test]
fn tenpai_fourteen_tile_hands_take_the_plain_minimum() {
    for s in ["122334m 678p 37s 22z 5s", "122334m 678p 12s 22z 4s", "34778p"] {
        let tehai = hand(s).unwrap();
        let len_div3 = (tehai.iter().map(|&c| c as usize).sum::<usize>() / 3) as u8;
        let normal = calc_normal(&tehai, len_div3);
        let expected = if len_div3 < 4 { normal } else { normal.min(calc_chitoi(&tehai)).min(calc_kokushi(&tehai)) };
        assert_eq!(calc_all(&tehai, len_div3), expected, "{s}");
    }
    // Complete as thirteen orphans: at least four tiles from the regular form.
    let tehai = hand("19m 19p 19s 12345677z").unwrap();
    assert!(calc_normal(&tehai, 4) >= 3);
}
