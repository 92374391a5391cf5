use riichi::algo::point::Point;
use riichi::arena::kyoku::{
    exhaustive_ryukyoku, pick_reaction, ron_deltas, tsumo_deltas, update_paos, AbortChecks, FourWindError,
};
use riichi::mjai::Event;
use riichi::tile::Tile;

fn t(id: u8) -> Tile {
    Tile::try_from_u8(id).unwrap()
}

#[test]
fn ryukyoku_tenpai_payments() {
    let none = [false; 4];
    assert_eq!(exhaustive_ryukyoku(0, &none, &[0, 1, 2, 3]), ([3000, -1000, -1000, -1000], true));
    assert_eq!(exhaustive_ryukyoku(1, &none, &[0, 0, 2, 3]), ([1500, 1500, -1500, -1500], true));
    assert_eq!(exhaustive_ryukyoku(2, &none, &[0, 0, 1, 0]), ([1000, 1000, -3000, 1000], false));
    assert_eq!(exhaustive_ryukyoku(3, &none, &[0, 0, 0, 0]), ([0, 0, 0, 0], true));
    assert_eq!(exhaustive_ryukyoku(3, &none, &[1, 2, 1, 3]), ([0, 0, 0, 0], false));
}

#[test]
fn ryukyoku_nagashi_mangan() {
    // A non-dealer's nagashi mangan: 8000 from the dealer's 4000 and 2000 each.
    let (d, _) = exhaustive_ryukyoku(0, &[false, true, false, false], &[0, 0, 0, 0]);
    assert_eq!(d, [-4000, 8000, -2000, -2000]);
    // The dealer's: 4000 each.
    let (d, renchan) = exhaustive_ryukyoku(2, &[false, false, true, false], &[1, 1, 1, 1]);
    assert_eq!(d, [-4000, -4000, 12000, -4000]);
    assert!(!renchan);
    // Two at once add up, and the tenpai payments are skipped.
    let (d, _) = exhaustive_ryukyoku(0, &[true, true, false, false], &[0, 1, 1, 1]);
    assert_eq!(d, [8000, 4000, -6000, -6000]);
    assert_eq!(d.iter().sum::<i32>(), 0);
}

#[test]
fn tsumo_payments() {
    let p = Point::calc(false, 30, 4);
    // Non-dealer tsumo, 2 honba, 1 riichi stick.
    let d = tsumo_deltas(1, 0, 2, 1, p, None);
    assert_eq!(d, [-4100, 7900 + 1000 + 600, -2200, -2200]);
    assert_eq!(d.iter().sum::<i32>(), 1000);
    // Dealer tsumo.
    let p = Point::calc(true, 30, 4);
    let d = tsumo_deltas(0, 0, 0, 0, p, None);
    assert_eq!(d, [11700, -3900, -3900, -3900]);
    // A liable seat pays the whole yakuman.
    let p = Point::yakuman(false, 1);
    let d = tsumo_deltas(3, 0, 1, 0, p, Some(2));
    assert_eq!(d, [0, 0, -32300, 32300]);
}

#[test]
fn ron_payments_and_double_ron() {
    let p = Point::calc(false, 40, 2);
    let q = Point::calc(true, 30, 3);
    let points = [Some(p), None, Some(q), None];
    // Seat 3 discards; seat 0 comes first, then seat 2.
    let r = ron_deltas(3, 1, 2, &points, &[None; 4]);
    assert_eq!(r, vec![(0, [2600 + 2000 + 300, 0, 0, -2600 - 300]), (2, [0, 0, 5800, -5800])]);
    let total: i32 = r.iter().map(|(_, d)| d.iter().sum::<i32>()).sum();
    assert_eq!(total, 2000);

    // Seat 1 discards; seat 2 comes before seat 0.
    let r = ron_deltas(1, 0, 0, &points, &[None; 4]);
    assert_eq!(r.iter().map(|e| e.0).collect::<Vec<_>>(), vec![2, 0]);

    // A liable seat pays half and the honba.
    let y = Point::yakuman(false, 1);
    let r = ron_deltas(0, 1, 0, &[None, Some(y), None, None], &[None, Some(3), None, None]);
    assert_eq!(r, vec![(1, [-16000, 32300, 0, -16300])]);

    assert_eq!(ron_deltas(0, 0, 0, &[None; 4], &[None; 4]), vec![]);
}

#[test]
fn reaction_priority_order() {
    let pass = Event::Nothing;
    let hora = Event::Hora { actor: 2, target: 0, deltas: None, ura_markers: None };
    let pon = Event::Pon { actor: 1, target: 0, pai: t(5), consumed: [t(5), t(5)] };
    let chi = Event::Chi { actor: 1, target: 0, pai: t(5), consumed: [t(3), t(4)] };
    assert_eq!(pick_reaction(&[pass.clone(), pon.clone(), hora.clone(), pass.clone()]), 2);
    assert_eq!(pick_reaction(&[pass.clone(), chi.clone(), pon.clone(), pass.clone()]), 2);
    assert_eq!(pick_reaction(&[pass.clone(), chi.clone(), pass.clone(), pass.clone()]), 1);
    assert_eq!(pick_reaction(&[pass.clone(), pass.clone(), pass.clone(), pass.clone()]), 0);
    assert_eq!(pick_reaction(&[pass.clone(), hora.clone(), hora.clone(), pass]), 1);
}

#[test]
fn nagashi_and_four_wind_tracking() {
    let mut c = AbortChecks::new();
    c.update_nagashi_mangan_and_four_wind(&Event::Dahai { actor: 1, pai: t(0), tsumogiri: false });
    assert_eq!(c.can_nagashi_mangan, [true; 4]);
    c.update_nagashi_mangan_and_four_wind(&Event::Dahai { actor: 1, pai: t(4), tsumogiri: false });
    assert_eq!(c.can_nagashi_mangan, [true, false, true, true]);
    assert!(c.can_four_wind);
    c.update_nagashi_mangan_and_four_wind(&Event::Pon { actor: 0, target: 2, pai: t(9), consumed: [t(9), t(9)] });
    assert_eq!(c.can_nagashi_mangan, [true, false, false, true]);
    assert!(!c.can_four_wind);
}

#[test]
fn four_winds_in_a_row() {
    let mut c = AbortChecks::new();
    let east = t(27);
    assert_eq!(c.check_four_wind(east, true), Ok(false));
    assert_eq!(c.four_wind_tile, Some(east));
    assert_eq!(c.check_four_wind(east, true), Ok(false));
    assert_eq!(c.check_four_wind(east, true), Ok(false));
    assert!(c.can_four_wind);
    // The fourth discard comes when the next seat has already drawn twice.
    assert_eq!(c.check_four_wind(east, false), Ok(true));

    let mut c = AbortChecks::new();
    assert_eq!(c.check_four_wind(east, true), Ok(false));
    assert_eq!(c.check_four_wind(t(28), true), Ok(false));
    assert!(!c.can_four_wind);

    let mut c = AbortChecks::new();
    assert_eq!(c.check_four_wind(t(5), true), Ok(false));
    assert!(!c.can_four_wind);

    let mut c = AbortChecks::new();
    assert_eq!(c.check_four_wind(east, false), Err(FourWindError));
}

#[test]
fn pao_on_third_dragon_and_fourth_wind() {
    let mut paos = [None; 4];
    let pon = Event::Pon { actor: 1, target: 3, pai: t(33), consumed: [t(33), t(33)] };
    update_paos(&mut paos, &pon, &[31, 33], &[32]);
    assert_eq!(paos, [None, Some(3), None, None]);

    let mut paos = [None; 4];
    update_paos(&mut paos, &pon, &[31, 33], &[]);
    assert_eq!(paos, [None; 4]);

    let mut paos = [None; 4];
    let kan = Event::Daiminkan { actor: 2, target: 0, pai: t(30), consumed: [t(30), t(30), t(30)] };
    update_paos(&mut paos, &kan, &[27, 28, 29], &[30]);
    assert_eq!(paos, [None, None, Some(0), None]);

    // The called tile must belong to the completed set.
    let mut paos = [None; 4];
    let pon_wind = Event::Pon { actor: 1, target: 3, pai: t(27), consumed: [t(27), t(27)] };
    update_paos(&mut paos, &pon_wind, &[27, 31, 32, 33], &[]);
    assert_eq!(paos, [None; 4]);
}
