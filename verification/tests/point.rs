use riichi::algo::point::Point;

#[test]
fn table() {
    let fus: Vec<i32> = (20..=110).step_by(10).chain(std::iter::once(25)).collect();
    for fu in fus {
        for han in 1..=14u32 {
            if han == 1 && fu < 30 {
                continue;
            }

            let base_points = if han >= 13 {
                8000
            } else if han >= 11 {
                6000
            } else if han >= 8 {
                4000
            } else if han >= 6 {
                3000
            } else if han >= 5 {
                2000
            } else {
                (fu * 2_i32.pow(2 + han)).min(2000)
            };
            let get_points = |mult: i32| (base_points * mult + 99) / 100 * 100;

            let points_ko = Point::calc(false, fu as u8, han as u8);
            assert_eq!(points_ko.tsumo_ko, get_points(1), "{fu}/{han}");
            assert_eq!(points_ko.tsumo_oya, get_points(2), "{fu}/{han}");
            assert_eq!(points_ko.ron, get_points(4), "{fu}/{han}");

            let points_oya = Point::calc(true, fu as u8, han as u8);
            assert_eq!(points_oya.tsumo_ko, get_points(2), "{fu}/{han}");
            assert_eq!(points_oya.ron, get_points(6), "{fu}/{han}");
        }
    }
}

#[test]
fn mangan_and_limits() {
    assert_eq!(Point::calc(false, 45, 4), Point { ron: 8000, tsumo_ko: 2000, tsumo_oya: 4000 });
    assert_eq!(Point::calc(true, 75, 3), Point { ron: 12000, tsumo_ko: 4000, tsumo_oya: 0 });
    assert_eq!(Point::calc(false, 30, 13), Point { ron: 32000, tsumo_ko: 8000, tsumo_oya: 16000 });
    assert_eq!(Point::calc(true, 30, 255), Point { ron: 48000, tsumo_ko: 16000, tsumo_oya: 0 });
}

#[test]
fn yakuman_points() {
    assert_eq!(Point::yakuman(true, 2), Point { ron: 96000, tsumo_ko: 32000, tsumo_oya: 0 });
    assert_eq!(Point::yakuman(false, 1), Point { ron: 32000, tsumo_ko: 8000, tsumo_oya: 16000 });
}

#[test]
fn tsumo_totals() {
    let p = Point::calc(false, 30, 4);
    assert_eq!(p.tsumo_total(false), 2000 * 2 + 3900);
    let p = Point::calc(true, 30, 4);
    assert_eq!(p.tsumo_total(true), 3900 * 3);
}
