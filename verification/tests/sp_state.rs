use riichi::algo::shanten::calc_all;
use riichi::algo::sp::{InitState, State};
use riichi::hand::{hand, hand_with_aka};
use riichi::tile::Tile;

fn init(tehai: &str, seen: &str) -> InitState {
    let t = hand(tehai).unwrap();
    let mut s = hand(seen).unwrap();
    for i in 0..34 {
        s[i] += t[i];
    }
    InitState {
        tehai: t,
        akas_in_hand: [false; 3],
        tiles_seen: s,
        akas_seen: [false; 3],
    }
}

#[test]
fn from_init_fills_wall_with_unseen() {
    let state = State::from_init(init("123m 456p 789s 11z", "1m"));
    assert_eq!(state.tiles_in_wall[0], 2);
    assert_eq!(state.tiles_in_wall[1], 3);
    assert_eq!(state.tiles_in_wall[27], 2);
    assert_eq!(state.tiles_in_wall[33], 4);
    assert_eq!(state.akas_in_wall, [true, true, true]);
    assert_eq!(state.n_extra_tsumo, 0);
    assert_eq!(state.sum_left_tiles(), 136 - 11 - 1);
}

#[test]
fn discard_and_undo_roundtrip() {
    let mut state = State::from_init(init("123m 456p 789s 11z", ""));
    let before = state.clone();
    let t = Tile::try_from_u8(27).unwrap();
    state.discard(t);
    assert_eq!(state.tehai[27], 1);
    state.undo_discard(t);
    assert!(state == before);
}

#[test]
fn deal_moves_one_tile_and_undo_restores() {
    let mut state = State::from_init(init("123m 456p 789s 11z", ""));
    let before = state.clone();
    let red = Tile::try_from_u8(34).unwrap();
    state.deal(red);
    assert_eq!(state.tehai[4], 1);
    assert_eq!(state.tiles_in_wall[4], 3);
    assert_eq!(state.akas_in_hand, [true, false, false]);
    assert_eq!(state.akas_in_wall, [false, true, true]);
    state.undo_deal(red);
    assert!(state == before);
}

#[test]
fn red_five_discard_clears_flag() {
    let t = hand_with_aka("0m").unwrap();
    assert_eq!(t[34], 1);
    let mut state = State::from_init(InitState {
        tehai: hand("5m").unwrap(),
        akas_in_hand: [true, false, false],
        tiles_seen: hand("5m").unwrap(),
        akas_seen: [true, false, false],
    });
    state.discard(Tile::try_from_u8(34).unwrap());
    assert_eq!(state.tehai[4], 0);
    assert_eq!(state.akas_in_hand, [false, false, false]);
}

#[test]
fn discard_tiles_report_shanten_change() {
    let state = State::from_init(init("123m 456p 78s 11z 5z", ""));
    let shanten = calc_all(&state.tehai, 3);
    assert_eq!(shanten, 0);
    let tiles = state.get_discard_tiles(shanten, 3);
    let v: Vec<(u8, i8)> = tiles.as_slice().iter().map(|d| (d.tile.as_u8(), d.shanten_diff)).collect();
    assert_eq!(v.len(), 10);
    // Discarding the lone 5z keeps tenpai; breaking a meld or the pair does not.
    assert!(v.contains(&(31, 0)));
    assert!(v.contains(&(27, 1)));
    assert!(v.contains(&(0, 1)));
    assert!(v.contains(&(24, 1)));
}

#[test]
fn draw_tiles_list_red_five_apart() {
    let state = State::from_init(init("123m 456p 789s 1z", ""));
    let shanten = calc_all(&state.tehai, 3);
    assert_eq!(shanten, 0);
    let tiles = state.get_draw_tiles(shanten, 3);
    let v: Vec<(u8, u8, i8)> = tiles
        .as_slice()
        .iter()
        .map(|d| (d.tile.as_u8(), d.count, d.shanten_diff))
        .collect();
    assert_eq!(v.len(), 37);
    assert!(v.contains(&(4, 3, 0)));
    assert!(v.contains(&(34, 1, 0)));
    assert!(v.contains(&(27, 3, -1)));
    assert!(v.contains(&(0, 3, 0)));
}

#[test]
fn required_tiles_are_those_that_lower_shanten() {
    let state = State::from_init(init("123m 456p 789s 1z", ""));
    let tiles = state.get_required_tiles(3);
    let v: Vec<(u8, u8)> = tiles.as_slice().iter().map(|r| (r.tile.as_u8(), r.count)).collect();
    assert_eq!(v, vec![(27, 3)]);
}
