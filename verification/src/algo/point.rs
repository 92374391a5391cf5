//! Score tables.

use vstd::prelude::*;

verus! {

/// The points paid for a win: `ron` by the discarder, or on tsumo
/// `tsumo_ko` by each non-dealer and `tsumo_oya` by the dealer.
#[derive(Debug, Clone, Copy, Default, PartialEq, Eq)]
pub struct Point {
    pub ron: i32,
    pub tsumo_ko: i32,
    pub tsumo_oya: i32,
}

/// The fu/han combinations that `Point::calc` accepts.
pub open spec fn valid_fu_han(fu: int, han: int) -> bool {
    ||| han >= 5
    ||| han == 4 && (fu == 20 || fu == 25 || fu == 30 || fu >= 40)
    ||| han == 3 && (fu == 20 || fu == 25 || fu == 30 || fu == 40 || fu == 50 || fu == 60 || fu >= 70)
    ||| han == 2 && (fu == 20 || fu == 25 || fu == 30 || fu == 40 || fu == 50 || fu == 60 || fu == 70
        || fu == 80 || fu == 90 || fu == 100 || fu == 110)
    ||| han == 1 && (fu == 30 || fu == 40 || fu == 50 || fu == 60 || fu == 70 || fu == 80 || fu == 90
        || fu == 100 || fu == 110)
}

/// `2^(2 + han)` for `han` in `1..=4`.
pub open spec fn han_factor(han: int) -> int {
    if han == 1 {
        8
    } else if han == 2 {
        16
    } else if han == 3 {
        32
    } else {
        64
    }
}

/// The base points: `fu * 2^(2 + han)` capped at mangan, then the fixed
/// limit hands.
pub open spec fn base_points(fu: int, han: int) -> int {
    if han >= 13 {
        8000
    } else if han >= 11 {
        6000
    } else if han >= 8 {
        4000
    } else if han >= 6 {
        3000
    } else if han >= 5 {
        2000
    } else if fu * han_factor(han) < 2000 {
        fu * han_factor(han)
    } else {
        2000
    }
}

/// `x` rounded up to a multiple of 100.
pub open spec fn ceil100(x: int) -> int {
    (x + 99) / 100 * 100
}

impl Point {
    /// The points of a win of `fu` fu and `han` han. For a dealer win
    /// `tsumo_oya` is 0.
    pub fn calc(is_oya: bool, fu: u8, han: u8) -> (r: Point)
        requires
            valid_fu_han(fu as int, han as int),
        ensures
            is_oya ==> r == (Point {
                ron: ceil100(base_points(fu as int, han as int) * 6) as i32,
                tsumo_ko: ceil100(base_points(fu as int, han as int) * 2) as i32,
                tsumo_oya: 0,
            }),
            !is_oya ==> r == (Point {
                ron: ceil100(base_points(fu as int, han as int) * 4) as i32,
                tsumo_ko: ceil100(base_points(fu as int, han as int)) as i32,
                tsumo_oya: ceil100(base_points(fu as int, han as int) * 2) as i32,
            }),
    {
        let (ron, tsumo_ko, tsumo_oya): (i32, i32, i32) = if is_oya {
            if (fu == 20 && han == 2) || (fu == 40 && han == 1) {
                (2000, 700, 0)
            } else if (fu == 20 && han == 3) || (fu == 40 && han == 2) || (fu == 80 && han == 1) {
                (3900, 1300, 0)
            } else if (fu == 20 && han == 4) || (fu == 40 && han == 3) || (fu == 80 && han == 2) {
                (7700, 2600, 0)
            } else if (fu == 25 && han == 2) || (fu == 50 && han == 1) {
                (2400, 800, 0)
            } else if (fu == 25 && han == 3) || (fu == 50 && han == 2) || (fu == 100 && han == 1) {
                (4800, 1600, 0)
            } else if (fu == 25 && han == 4) || (fu == 50 && han == 3) || (fu == 100 && han == 2) {
                (9600, 3200, 0)
            } else if fu == 30 && han == 1 {
                (1500, 500, 0)
            } else if (fu == 30 && han == 2) || (fu == 60 && han == 1) {
                (2900, 1000, 0)
            } else if (fu == 30 && han == 3) || (fu == 60 && han == 2) {
                (5800, 2000, 0)
            } else if (fu == 30 && han == 4) || (fu == 60 && han == 3) {
                (11600, 3900, 0)
            } else if fu == 70 && han == 1 {
                (3400, 1200, 0)
            } else if fu == 70 && han == 2 {
                (6800, 2300, 0)
            } else if fu == 90 && han == 1 {
                (4400, 1500, 0)
            } else if fu == 90 && han == 2 {
                (8700, 2900, 0)
            } else if fu == 110 && han == 1 {
                // theoretical value, since 110/1 tsumo is not possible
                (5300, 1800, 0)
            } else if fu == 110 && han == 2 {
                (10600, 3600, 0)
            } else if han == 5 || (fu >= 40 && han == 4) || (fu >= 70 && han == 3) {
                (12000, 4000, 0)
            } else if 6 <= han && han <= 7 {
                (18000, 6000, 0)
            } else if 8 <= han && han <= 10 {
                (24000, 8000, 0)
            } else if 11 <= han && han <= 12 {
                (36000, 12000, 0)
            } else {
                (48000, 16000, 0)
            }
        } else {
            if (fu == 20 && han == 2) || (fu == 40 && han == 1) {
                (1300, 400, 700)
            } else if (fu == 20 && han == 3) || (fu == 40 && han == 2) || (fu == 80 && han == 1) {
                (2600, 700, 1300)
            } else if (fu == 20 && han == 4) || (fu == 40 && han == 3) || (fu == 80 && han == 2) {
                (5200, 1300, 2600)
            } else if (fu == 25 && han == 2) || (fu == 50 && han == 1) {
                (1600, 400, 800)
            } else if (fu == 25 && han == 3) || (fu == 50 && han == 2) || (fu == 100 && han == 1) {
                (3200, 800, 1600)
            } else if (fu == 25 && han == 4) || (fu == 50 && han == 3) || (fu == 100 && han == 2) {
                (6400, 1600, 3200)
            } else if fu == 30 && han == 1 {
                (1000, 300, 500)
            } else if (fu == 30 && han == 2) || (fu == 60 && han == 1) {
                (2000, 500, 1000)
            } else if (fu == 30 && han == 3) || (fu == 60 && han == 2) {
                (3900, 1000, 2000)
            } else if (fu == 30 && han == 4) || (fu == 60 && han == 3) {
                (7700, 2000, 3900)
            } else if fu == 70 && han == 1 {
                (2300, 600, 1200)
            } else if fu == 70 && han == 2 {
                (4500, 1200, 2300)
            } else if fu == 90 && han == 1 {
                (2900, 800, 1500)
            } else if fu == 90 && han == 2 {
                (5800, 1500, 2900)
            } else if fu == 110 && han == 1 {
                // theoretical value, since 110/1 tsumo is not possible
                (3600, 900, 1800)
            } else if fu == 110 && han == 2 {
                (7100, 1800, 3600)
            } else if han == 5 || (fu >= 40 && han == 4) || (fu >= 70 && han == 3) {
                (8000, 2000, 4000)
            } else if 6 <= han && han <= 7 {
                (12000, 3000, 6000)
            } else if 8 <= han && han <= 10 {
                (16000, 4000, 8000)
            } else if 11 <= han && han <= 12 {
                (24000, 6000, 12000)
            } else {
                (32000, 8000, 16000)
            }
        };
        Point { ron, tsumo_ko, tsumo_oya }
    }

    /// The points of a win worth `count` yakuman.
    pub fn yakuman(is_oya: bool, count: i32) -> (r: Point)
        requires
            -44739 <= count <= 44739,
        ensures
            is_oya ==> r == (Point { ron: (48000 * count) as i32, tsumo_ko: (16000 * count) as i32, tsumo_oya: 0 }),
            !is_oya ==> r == (Point {
                ron: (32000 * count) as i32,
                tsumo_ko: (8000 * count) as i32,
                tsumo_oya: (16000 * count) as i32,
            }),
    {
        if is_oya {
            Point { ron: 48000 * count, tsumo_ko: 16000 * count, tsumo_oya: 0 }
        } else {
            Point { ron: 32000 * count, tsumo_ko: 8000 * count, tsumo_oya: 16000 * count }
        }
    }

    /// What the winner collects in total on tsumo.
    pub fn tsumo_total(self, is_oya: bool) -> (r: i32)
        requires
            is_oya ==> i32::MIN <= self.tsumo_ko * 3 <= i32::MAX,
            !is_oya ==> i32::MIN <= self.tsumo_ko * 2 <= i32::MAX,
            !is_oya ==> i32::MIN <= self.tsumo_ko * 2 + self.tsumo_oya <= i32::MAX,
        ensures
            r == if is_oya {
                self.tsumo_ko * 3
            } else {
                self.tsumo_ko * 2 + self.tsumo_oya
            },
    {
        if is_oya {
            self.tsumo_ko * 3
        } else {
            self.tsumo_ko * 2 + self.tsumo_oya
        }
    }
}

} // verus!
