//! The decisions of a kyoku being played: which of the four reactions is
//! taken, when the kyoku is aborted, and how the points move when it ends.

use crate::algo::point::Point;
use crate::arena::board::Board;
use crate::mjai::event::Event;
use crate::tile::{spec_is_yaokyuu, Tile};
use crate::vec_ops::vec_add_assign_i32;
use vstd::multiset::Multiset;
use vstd::prelude::*;

verus! {

pub open spec fn ind(b: bool) -> int {
    if b { 1 } else { 0 }
}

/// What `seat` gets when `winner` completes a nagashi mangan.
pub open spec fn nagashi_delta(oya: int, winner: int, seat: int) -> int {
    if winner == oya {
        if seat == winner { 12000 } else { -4000 }
    } else if seat == winner {
        8000
    } else if seat == oya {
        -4000
    } else {
        -2000
    }
}

/// The sum over the first `k` seats with a nagashi mangan.
pub open spec fn nagashi_sum(oya: int, nagashi: Seq<bool>, seat: int, k: int) -> int
    decreases k,
{
    if k <= 0 {
        0
    } else {
        nagashi_sum(oya, nagashi, seat, k - 1) + if nagashi[k - 1] {
            nagashi_delta(oya, k - 1, seat)
        } else {
            0
        }
    }
}

/// The number of seats among the first `k` that are set.
pub open spec fn count_true(b: Seq<bool>, k: int) -> int
    decreases k,
{
    if k <= 0 {
        0
    } else {
        count_true(b, k - 1) + ind(b[k - 1])
    }
}

/// The tenpai payments: the seats out of tenpai share 3000 points among
/// the seats in tenpai, unless all four or none are.
pub open spec fn tenpai_delta(tenpai: Seq<bool>, seat: int) -> int {
    let n = count_true(tenpai, 4);
    if n == 1 {
        if tenpai[seat] { 3000 } else { -1000 }
    } else if n == 2 {
        if tenpai[seat] { 1500 } else { -1500 }
    } else if n == 3 {
        if tenpai[seat] { 1000 } else { -3000 }
    } else {
        0
    }
}

/// The point change of `seat` when the wall runs out: the nagashi manga
/// payments if anyone completed one, the tenpai payments otherwise.
pub open spec fn ryukyoku_delta(oya: int, nagashi: Seq<bool>, tenpai: Seq<bool>, seat: int) -> int {
    if count_true(nagashi, 4) > 0 {
        nagashi_sum(oya, nagashi, seat, 4)
    } else {
        tenpai_delta(tenpai, seat)
    }
}

pub open spec fn tenpai_of(shantens: Seq<i8>) -> Seq<bool> {
    Seq::new(4, |i: int| shantens[i] == 0)
}

proof fn lemma_count_true_range(b: Seq<bool>, k: int)
    requires
        0 <= k,
    ensures
        0 <= count_true(b, k) <= k,
    decreases k,
{
    if k > 0 {
        lemma_count_true_range(b, k - 1);
    }
}

/// Without any nagashi mangan among the first `k` seats there is nothing to
/// pay for one.
proof fn lemma_nagashi_none(oya: int, nagashi: Seq<bool>, seat: int, k: int)
    requires
        0 <= k,
        count_true(nagashi, k) == 0,
    ensures
        nagashi_sum(oya, nagashi, seat, k) == 0,
    decreases k,
{
    if k > 0 {
        lemma_count_true_range(nagashi, k - 1);
        lemma_nagashi_none(oya, nagashi, seat, k - 1);
    }
}

proof fn lemma_nagashi_sum_range(oya: int, nagashi: Seq<bool>, seat: int, k: int)
    requires
        0 <= k <= 4,
    ensures
        -16000 * k <= nagashi_sum(oya, nagashi, seat, k) <= 12000 * k,
    decreases k,
{
    if k > 0 {
        lemma_nagashi_sum_range(oya, nagashi, seat, k - 1);
    }
}

/// The payments when the wall runs out, and whether the dealer keeps the
/// seat (it does when it is in tenpai). `shantens` are the four seats'
/// shanten numbers; zero is tenpai.
pub fn exhaustive_ryukyoku(oya: u8, can_nagashi_mangan: &[bool; 4], shantens: &[i8; 4]) -> (r: ([i32; 4], bool))
    requires
        oya < 4,
    ensures
        forall|j: int|
            0 <= j < 4 ==> #[trigger] r.0@[j] == ryukyoku_delta(
                oya as int,
                can_nagashi_mangan@,
                tenpai_of(shantens@),
                j,
            ),
        r.1 == (shantens@[oya as int] == 0),
{
    let can_renchan = shantens[oya as usize] == 0;
    let mut deltas: [i32; 4] = [0; 4];
    let mut has_nagashi_mangan = false;
    let mut i: usize = 0;
    while i < 4
        invariant
            i <= 4,
            oya < 4,
            has_nagashi_mangan == (count_true(can_nagashi_mangan@, i as int) > 0),
            forall|j: int|
                0 <= j < 4 ==> #[trigger] deltas@[j] == nagashi_sum(oya as int, can_nagashi_mangan@, j, i as int),
        decreases 4 - i,
    {
        proof {
            lemma_count_true_range(can_nagashi_mangan@, i as int);
        }
        if can_nagashi_mangan[i] {
            has_nagashi_mangan = true;
            let mut dod: [i32; 4];
            if i == oya as usize {
                dod = [-4000; 4];
                dod[i] = 12000;
            } else {
                dod = [-2000; 4];
                dod[i] = 8000;
                dod[oya as usize] = -4000;
            }
            proof {
                assert forall|j: int| 0 <= j < 4 implies i32::MIN <= #[trigger] deltas@[j] + dod@[j] <= i32::MAX by {
                    lemma_nagashi_sum_range(oya as int, can_nagashi_mangan@, j, i as int);
                }
            }
            vec_add_assign_i32(&mut deltas, &dod);
            proof {
                assert forall|j: int| 0 <= j < 4 implies #[trigger] dod@[j] == nagashi_delta(oya as int, i as int, j) by {
                }
            }
        }
        i += 1;
    }
    if !has_nagashi_mangan {
        proof {
            lemma_count_true_range(can_nagashi_mangan@, 4);
            assert forall|j: int| 0 <= j < 4 implies #[trigger] deltas@[j] == 0 by {
                lemma_nagashi_none(oya as int, can_nagashi_mangan@, j, 4);
            }
        }
        let mut n: usize = 0;
        let mut k: usize = 0;
        while k < 4
            invariant
                k <= 4,
                n == count_true(tenpai_of(shantens@), k as int),
            decreases 4 - k,
        {
            proof {
                lemma_count_true_range(tenpai_of(shantens@), k as int);
            }
            if shantens[k] == 0 {
                n += 1;
            }
            k += 1;
        }
        let (plus, minus): (i32, i32) = if n == 1 {
            (3000, -1000)
        } else if n == 2 {
            (1500, -1500)
        } else if n == 3 {
            (1000, -3000)
        } else {
            (0, 0)
        };
        if plus > 0 {
            let mut dod: [i32; 4] = [minus; 4];
            let mut k: usize = 0;
            while k < 4
                invariant
                    k <= 4,
                    forall|j: int| 0 <= j < 4 ==> #[trigger] dod@[j] == if j < k && shantens@[j] == 0 {
                        plus
                    } else {
                        minus
                    },
                decreases 4 - k,
            {
                if shantens[k] == 0 {
                    dod[k] = plus;
                }
                k += 1;
            }
            vec_add_assign_i32(&mut deltas, &dod);
        }
    }
    proof {
        lemma_count_true_range(can_nagashi_mangan@, 4);
    }
    (deltas, can_renchan)
}

/// Nobody gains or loses points in total when the wall runs out.
pub proof fn lemma_ryukyoku_zero_sum(oya: int, nagashi: Seq<bool>, tenpai: Seq<bool>)
    requires
        0 <= oya < 4,
    ensures
        ryukyoku_delta(oya, nagashi, tenpai, 0) + ryukyoku_delta(oya, nagashi, tenpai, 1) + ryukyoku_delta(
            oya,
            nagashi,
            tenpai,
            2,
        ) + ryukyoku_delta(oya, nagashi, tenpai, 3) == 0,
{
    reveal_with_fuel(nagashi_sum, 5);
    reveal_with_fuel(count_true, 5);
}

pub open spec fn in_i32(x: int) -> bool {
    i32::MIN <= x <= i32::MAX
}

/// `x / 2` rounded toward zero, as integer division does.
pub open spec fn trunc_half(x: int) -> int {
    if x >= 0 {
        x / 2
    } else {
        -((-x) / 2)
    }
}

pub open spec fn spec_tsumo_total(p: Point, is_oya: bool) -> int {
    if is_oya {
        p.tsumo_ko * 3
    } else {
        p.tsumo_ko * 2 + p.tsumo_oya
    }
}

/// The point change of `seat` when `actor` wins by tsumo: every other seat
/// pays its share and 100 points per honba, or the seat liable for the
/// yakuman (`pao`) pays the whole ron value and 300 per honba; the winner
/// also takes the riichi sticks.
pub open spec fn tsumo_delta(
    actor: int,
    oya: int,
    honba: int,
    kyotaku: int,
    p: Point,
    pao: Option<u8>,
    seat: int,
) -> int {
    if seat == actor {
        spec_tsumo_total(p, actor == oya) + 1000 * kyotaku + 300 * honba
    } else {
        match pao {
            Some(t) => if seat == t as int {
                -p.ron - 300 * honba
            } else {
                0
            },
            None => if seat == oya {
                -p.tsumo_oya - 100 * honba
            } else {
                -p.tsumo_ko - 100 * honba
            },
        }
    }
}

/// The arithmetic of a tsumo win stays within `i32`.
pub open spec fn tsumo_fits(actor: int, oya: int, honba: int, kyotaku: int, p: Point, pao: Option<u8>) -> bool {
    &&& actor == oya ==> in_i32(p.tsumo_ko * 3)
    &&& actor != oya ==> in_i32(p.tsumo_ko * 2) && in_i32(p.tsumo_ko * 2 + p.tsumo_oya)
    &&& in_i32(spec_tsumo_total(p, actor == oya) + 1000 * kyotaku)
    &&& in_i32(spec_tsumo_total(p, actor == oya) + 1000 * kyotaku + 300 * honba)
    &&& match pao {
        Some(_) => in_i32(-p.ron) && in_i32(-p.ron - 300 * honba),
        None => in_i32(-p.tsumo_ko) && in_i32(-p.tsumo_ko - 100 * honba) && (actor != oya ==> in_i32(
            -p.tsumo_oya,
        ) && in_i32(-p.tsumo_oya - 100 * honba)),
    }
}

/// The point changes of a tsumo win by `actor` worth `point`.
pub fn tsumo_deltas(actor: u8, oya: u8, honba: u8, kyotaku: u8, point: Point, pao: Option<u8>) -> (r: [i32; 4])
    requires
        actor < 4,
        oya < 4,
        pao matches Some(t) ==> t < 4,
        tsumo_fits(actor as int, oya as int, honba as int, kyotaku as int, point, pao),
    ensures
        forall|seat: int|
            0 <= seat < 4 ==> #[trigger] r@[seat] == tsumo_delta(
                actor as int,
                oya as int,
                honba as int,
                kyotaku as int,
                point,
                pao,
                seat,
            ),
{
    let honba_left = honba as i32;
    let kyotaku_point = kyotaku as i32 * 1000;
    let mut deltas: [i32; 4] = [0; 4];
    match pao {
        Some(pao_target) => {
            deltas[pao_target as usize] = -point.ron - honba_left * 300;
        },
        None => {
            deltas = [-point.tsumo_ko - honba_left * 100; 4];
            if actor != oya {
                deltas[oya as usize] = -point.tsumo_oya - honba_left * 100;
            }
        },
    }
    deltas[actor as usize] = point.tsumo_total(actor == oya) + kyotaku_point + honba_left * 300;
    deltas
}

/// A tsumo win moves no points in total but the riichi sticks, unless a
/// seat is liable for a yakuman whose ron value differs from its tsumo
/// value.
pub proof fn lemma_tsumo_balance(actor: int, oya: int, honba: int, kyotaku: int, p: Point, pao: Option<u8>)
    requires
        0 <= actor < 4,
        0 <= oya < 4,
        pao matches Some(t) ==> t < 4 && t != actor && p.ron == spec_tsumo_total(p, actor == oya),
    ensures
        tsumo_delta(actor, oya, honba, kyotaku, p, pao, 0) + tsumo_delta(actor, oya, honba, kyotaku, p, pao, 1)
            + tsumo_delta(actor, oya, honba, kyotaku, p, pao, 2) + tsumo_delta(actor, oya, honba, kyotaku, p, pao, 3)
            == 1000 * kyotaku,
{
}

/// The point change of `seat` when `actor` wins by ron on `target`'s
/// discard: the discarder pays the ron value and 300 per honba, or half of
/// it while the seat liable for the yakuman (`pao`) pays the other half and
/// the honba; the winner also takes the riichi sticks.
pub open spec fn ron_delta(
    target: int,
    honba: int,
    kyotaku: int,
    p: Point,
    pao: Option<u8>,
    actor: int,
    seat: int,
) -> int {
    if seat == actor {
        p.ron + 1000 * kyotaku + 300 * honba
    } else {
        (match pao {
            Some(t) => if seat == t as int {
                -trunc_half(p.ron as int) - 300 * honba
            } else {
                0
            },
            None => 0,
        }) + if seat == target {
            match pao {
                Some(_) => -trunc_half(p.ron as int),
                None => -p.ron - 300 * honba,
            }
        } else {
            0
        }
    }
}

pub open spec fn ron_deltas_of(target: int, honba: int, kyotaku: int, p: Point, pao: Option<u8>, actor: int) -> Seq<
    int,
> {
    Seq::new(4, |seat: int| ron_delta(target, honba, kyotaku, p, pao, actor, seat))
}

/// The wins on `target`'s discard from the `k`-th seat after it on, in
/// turn order: each winner with its point changes. The honba and the
/// riichi sticks go to the first winner only.
pub open spec fn ron_horas(
    target: int,
    honba: int,
    kyotaku: int,
    points: Seq<Option<Point>>,
    paos: Seq<Option<u8>>,
    k: int,
) -> Seq<(int, Seq<int>)>
    decreases 3 - k,
{
    if k >= 3 || k < 0 {
        Seq::empty()
    } else {
        let a = (target + 1 + k) % 4;
        match points[a] {
            Some(p) => seq![(a, ron_deltas_of(target, honba, kyotaku, p, paos[a], a))] + ron_horas(
                target,
                0,
                0,
                points,
                paos,
                k + 1,
            ),
            None => ron_horas(target, honba, kyotaku, points, paos, k + 1),
        }
    }
}

/// The arithmetic of every ron stays within `i32`.
pub open spec fn ron_fits(target: int, honba: int, kyotaku: int, points: Seq<Option<Point>>) -> bool {
    forall|a: int|
        0 <= a < 4 && a != target && #[trigger] points[a] is Some ==> {
            let p = points[a]->0;
            &&& in_i32(p.ron + 1000 * kyotaku)
            &&& in_i32(p.ron + 1000 * kyotaku + 300 * honba)
            &&& in_i32(-p.ron)
            &&& in_i32(-p.ron - 300 * honba)
        }
}

pub open spec fn entries(v: Seq<(u8, [i32; 4])>) -> Seq<(int, Seq<int>)> {
    v.map_values(|e: (u8, [i32; 4])| (e.0 as int, e.1@.map_values(|x: i32| x as int)))
}

/// The ron wins on `target`'s discard: `points[a]` is the value of seat
/// `a`'s win when it declared one. Winners come in turn order after the
/// discarder, each with its point changes.
pub fn ron_deltas(
    target: u8,
    honba: u8,
    kyotaku: u8,
    points: &[Option<Point>; 4],
    paos: &[Option<u8>; 4],
) -> (r: Vec<(u8, [i32; 4])>)
    requires
        target < 4,
        forall|a: int| 0 <= a < 4 ==> (#[trigger] paos@[a] matches Some(t) ==> t < 4),
        ron_fits(target as int, honba as int, kyotaku as int, points@),
    ensures
        entries(r@) == ron_horas(target as int, honba as int, kyotaku as int, points@, paos@, 0),
{
    let mut honba_left = honba as i32;
    let mut kyotaku_point = kyotaku as i32 * 1000;
    let mut ret: Vec<(u8, [i32; 4])> = Vec::new();
    let mut k: usize = 0;
    while k < 3
        invariant
            k <= 3,
            target < 4,
            forall|a: int| 0 <= a < 4 ==> (#[trigger] paos@[a] matches Some(t) ==> t < 4),
            ron_fits(target as int, honba as int, kyotaku as int, points@),
            (honba_left == honba && kyotaku_point == 1000 * kyotaku) || (honba_left == 0 && kyotaku_point == 0),
            entries(ret@) + ron_horas(target as int, honba_left as int, kyotaku_point / 1000, points@, paos@, k as int)
                == ron_horas(target as int, honba as int, kyotaku as int, points@, paos@, 0),
        decreases 3 - k,
    {
        let actor = (target as usize + 1 + k) % 4;
        let ghost h = honba_left as int;
        let ghost kk = kyotaku_point / 1000;
        proof {
            assert(kyotaku_point == 1000 * kk);
        }
        match points[actor] {
            Some(point) => {
                let half = point.ron / 2;
                proof {
                    assert(half == trunc_half(point.ron as int));
                }
                let mut deltas: [i32; 4] = [0; 4];
                match paos[actor] {
                    Some(pao_target) => {
                        deltas[pao_target as usize] = -half - honba_left * 300;
                        deltas[target as usize] = deltas[target as usize] - half;
                    },
                    None => {
                        deltas[target as usize] = -point.ron - honba_left * 300;
                    },
                }
                deltas[actor] = point.ron + kyotaku_point + honba_left * 300;
                let ghost old_ret = ret@;
                let ghost e = (actor as int, ron_deltas_of(target as int, h, kk, point, paos@[actor as int], actor as int));
                proof {
                    assert(deltas@.map_values(|x: i32| x as int) =~= e.1);
                }
                kyotaku_point = 0;
                honba_left = 0;
                ret.push((actor as u8, deltas));
                proof {
                    assert(entries(ret@) =~= entries(old_ret).push(e));
                    assert(ron_horas(target as int, h, kk, points@, paos@, k as int) == seq![e] + ron_horas(
                        target as int,
                        0,
                        0,
                        points@,
                        paos@,
                        k + 1,
                    ));
                    assert(entries(old_ret).push(e) + ron_horas(target as int, 0, 0, points@, paos@, k + 1)
                        =~= entries(old_ret) + (seq![e] + ron_horas(target as int, 0, 0, points@, paos@, k + 1)));
                }
            },
            None => {},
        }
        k += 1;
    }
    ret
}

pub open spec fn sum4(d: Seq<int>) -> int {
    d[0] + d[1] + d[2] + d[3]
}

/// The sum of all point changes of a list of wins.
pub open spec fn total_deltas(es: Seq<(int, Seq<int>)>) -> int
    decreases es.len(),
{
    if es.len() == 0 {
        0
    } else {
        sum4(es[0].1) + total_deltas(es.drop_first())
    }
}

/// A seat liable for a yakuman is never its winner, and a yakuman shared
/// with the liable seat has an even ron value.
pub open spec fn paos_ok(points: Seq<Option<Point>>, paos: Seq<Option<u8>>) -> bool {
    forall|a: int|
        0 <= a < 4 ==> (#[trigger] paos[a] matches Some(t) ==> t < 4 && t != a && (points[a] matches Some(p)
            ==> p.ron % 2 == 0))
}

proof fn lemma_ron_entry_balance(target: int, honba: int, kyotaku: int, p: Point, pao: Option<u8>, a: int)
    requires
        0 <= target < 4,
        0 <= a < 4,
        a != target,
        pao matches Some(t) ==> t < 4 && t != a && p.ron % 2 == 0,
    ensures
        sum4(ron_deltas_of(target, honba, kyotaku, p, pao, a)) == 1000 * kyotaku,
{
}

proof fn lemma_ron_horas_balance(
    target: int,
    honba: int,
    kyotaku: int,
    points: Seq<Option<Point>>,
    paos: Seq<Option<u8>>,
    k: int,
)
    requires
        0 <= target < 4,
        0 <= k <= 3,
        paos_ok(points, paos),
    ensures
        total_deltas(ron_horas(target, honba, kyotaku, points, paos, k)) == if ron_horas(
            target,
            honba,
            kyotaku,
            points,
            paos,
            k,
        ).len() > 0 {
            1000 * kyotaku
        } else {
            0
        },
    decreases 3 - k,
{
    if k < 3 {
        let a = (target + 1 + k) % 4;
        lemma_ron_horas_balance(target, 0, 0, points, paos, k + 1);
        lemma_ron_horas_balance(target, honba, kyotaku, points, paos, k + 1);
        match points[a] {
            Some(p) => {
                assert(paos[a] matches Some(t) ==> t < 4 && t != a && p.ron % 2 == 0);
                lemma_ron_entry_balance(target, honba, kyotaku, p, paos[a], a);
                let e = (a, ron_deltas_of(target, honba, kyotaku, p, paos[a], a));
                let rest = ron_horas(target, 0, 0, points, paos, k + 1);
                assert((seq![e] + rest).drop_first() =~= rest);
            },
            None => {},
        }
    }
}

/// The wins on a discard move no points in total but the riichi sticks,
/// which the first winner takes.
pub proof fn lemma_ron_balance(
    target: int,
    honba: int,
    kyotaku: int,
    points: Seq<Option<Point>>,
    paos: Seq<Option<u8>>,
)
    requires
        0 <= target < 4,
        paos_ok(points, paos),
        ron_horas(target, honba, kyotaku, points, paos, 0).len() > 0,
    ensures
        total_deltas(ron_horas(target, honba, kyotaku, points, paos, 0)) == 1000 * kyotaku,
{
    lemma_ron_horas_balance(target, honba, kyotaku, points, paos, 0);
}

/// How urgent a reaction is: a win first, then a pon or an open kan, then
/// any other action, and passing last.
pub open spec fn priority(ev: Event) -> int {
    match ev {
        Event::Hora { .. } => 0,
        Event::Daiminkan { .. } | Event::Pon { .. } => 1,
        Event::Nothing => 3,
        _ => 2,
    }
}

fn reaction_priority(ev: &Event) -> (r: u8)
    ensures
        r == priority(*ev),
{
    match ev {
        Event::Hora { .. } => 0,
        Event::Daiminkan { .. } | Event::Pon { .. } => 1,
        Event::Nothing => 3,
        _ => 2,
    }
}

/// The seat whose reaction is taken: the most urgent one, and the first seat
/// among equally urgent ones.
pub fn pick_reaction(reactions: &[Event; 4]) -> (r: usize)
    ensures
        r < 4,
        forall|i: int| 0 <= i < 4 ==> priority(reactions@[r as int]) <= #[trigger] priority(reactions@[i]),
        forall|i: int| 0 <= i < r ==> priority(reactions@[r as int]) < #[trigger] priority(reactions@[i]),
        (exists|i: int| 0 <= i < 4 && #[trigger] reactions@[i] is Hora) ==> reactions@[r as int] is Hora,
        (exists|i: int| 0 <= i < 4 && (#[trigger] reactions@[i] is Pon || reactions@[i] is Daiminkan))
            && (forall|i: int| 0 <= i < 4 ==> !(#[trigger] reactions@[i] is Hora))
            ==> (reactions@[r as int] is Pon || reactions@[r as int] is Daiminkan),
        (exists|i: int| 0 <= i < 4 && !(#[trigger] reactions@[i] is Nothing)) ==> !(reactions@[r as int] is Nothing),
        forall|i: int| 0 <= i < r ==> !(#[trigger] reactions@[i] is Nothing)
            ==> !(reactions@[r as int] is Nothing),
{
    let mut best: usize = 0;
    let mut best_p = reaction_priority(&reactions[0]);
    let mut i: usize = 1;
    while i < 4
        invariant
            1 <= i <= 4,
            best < i,
            best_p == priority(reactions@[best as int]),
            forall|j: int| 0 <= j < i ==> best_p <= #[trigger] priority(reactions@[j]),
            forall|j: int| 0 <= j < best ==> best_p < #[trigger] priority(reactions@[j]),
        decreases 4 - i,
    {
        let p = reaction_priority(&reactions[i]);
        if p < best_p {
            best = i;
            best_p = p;
        }
        i += 1;
    }
    proof {
        assert forall|k: int| 0 <= k < 4 implies
            priority(reactions@[best as int]) <= #[trigger] priority(reactions@[k]) by {}
        if exists|k: int| 0 <= k < 4 && #[trigger] reactions@[k] is Hora {
            let k = choose|k: int| 0 <= k < 4 && #[trigger] reactions@[k] is Hora;
            assert(priority(reactions@[k]) == 0);
        }
        if exists|k: int| 0 <= k < 4 && (#[trigger] reactions@[k] is Pon || reactions@[k] is Daiminkan) {
            let k = choose|k: int| 0 <= k < 4 && (#[trigger] reactions@[k] is Pon || reactions@[k] is Daiminkan);
            assert(priority(reactions@[k]) == 1);
        }
        if exists|k: int| 0 <= k < 4 && !(#[trigger] reactions@[k] is Nothing) {
            let k = choose|k: int| 0 <= k < 4 && !(#[trigger] reactions@[k] is Nothing);
            assert(priority(reactions@[k]) <= 2);
        }
    }
    best
}

/// The order of reactions: a win outranks everything else; a pon and an open
/// kan rank alike, above every other call; any call outranks a pass; and
/// reactions of one kind rank alike.
pub proof fn lemma_priority_order(x: Event, y: Event)
    ensures
        x is Hora && !(y is Hora) ==> priority(x) < priority(y),
        (x is Pon || x is Daiminkan) && !(y is Hora || y is Pon || y is Daiminkan)
            ==> priority(x) < priority(y),
        !(x is Nothing) && y is Nothing ==> priority(x) < priority(y),
        (x is Pon && y is Daiminkan) ==> priority(x) == priority(y),
        (x is Chi && y is Chi) || (x is Hora && y is Hora) ==> priority(x) == priority(y),
        priority(x) <= priority(y) && y is Hora ==> x is Hora,
        priority(x) <= priority(y) && (y is Pon || y is Daiminkan) ==> (x is Hora || x is Pon || x is Daiminkan),
{
}

/// What can still abort the kyoku or pay at its end: who can still make a
/// nagashi mangan, and whether the first discards can still all be the
/// same wind.
#[derive(Debug, Clone, Copy, PartialEq, Eq)]
pub struct AbortChecks {
    pub can_nagashi_mangan: [bool; 4],
    pub can_four_wind: bool,
    /// The wind of the first discard, once there is one.
    pub four_wind_tile: Option<Tile>,
}

/// Why the four-winds check cannot go on: a discard after the first go-round
/// with no first wind recorded.
#[derive(Debug, Clone, Copy, PartialEq, Eq)]
pub struct FourWindError;

/// The four winds.
pub open spec fn is_wind(id: int) -> bool {
    27 <= id <= 30
}

/// `AbortChecks` as plain values: who can still make a nagashi mangan,
/// whether the four winds can still happen, and the first wind.
pub type AbortModel = (Seq<bool>, bool, Option<Tile>);

/// The checks after `ev` has been taken.
pub open spec fn after_event(c: AbortModel, ev: Event) -> AbortModel {
    match ev {
        Event::Dahai { actor, pai, .. } => if !spec_is_yaokyuu(pai.id()) {
            (c.0.update(actor as int, false), c.1, c.2)
        } else {
            c
        },
        Event::Chi { target, .. } | Event::Pon { target, .. } | Event::Daiminkan { target, .. } => (
            c.0.update(target as int, false),
            false,
            c.2,
        ),
        Event::Ankan { .. } => (c.0, false, c.2),
        _ => c,
    }
}

/// The seats that an event names stay within the table.
pub open spec fn seats_ok(ev: Event) -> bool {
    match ev {
        Event::Dahai { actor, .. } => actor < 4,
        Event::Chi { target, .. } | Event::Pon { target, .. } | Event::Daiminkan { target, .. } => target < 4,
        _ => true,
    }
}

impl AbortChecks {
    /// Everyone can still make a nagashi mangan and nothing has broken the
    /// four winds yet.
    pub fn new() -> (r: AbortChecks)
        ensures
            r@ == (seq![true, true, true, true], true, None::<Tile>),
    {
        let r = AbortChecks { can_nagashi_mangan: [true; 4], can_four_wind: true, four_wind_tile: None };
        proof {
            assert(r.can_nagashi_mangan@ =~= seq![true, true, true, true]);
        }
        r
    }

    /// A discard of a simple tile ends the discarder's nagashi mangan; a
    /// call ends the called seat's one and the four winds; a closed kan
    /// ends the four winds.
    pub fn update_nagashi_mangan_and_four_wind(&mut self, ev: &Event)
        requires
            seats_ok(*ev),
        ensures
            final(self)@ == after_event(old(self)@, *ev),
    {
        match ev {
            Event::Dahai { actor, pai, .. } => {
                if !pai.is_yaokyuu() {
                    self.can_nagashi_mangan[*actor as usize] = false;
                }
            },
            Event::Chi { target, .. } | Event::Pon { target, .. } | Event::Daiminkan { target, .. } => {
                self.can_nagashi_mangan[*target as usize] = false;
                self.can_four_wind = false;
            },
            Event::Ankan { .. } => {
                self.can_four_wind = false;
            },
            _ => {},
        }
    }

    /// Checks the discard `pai` for four winds in a row while
    /// `can_four_wind` holds; `can_w_riichi` tells whether the seat to draw
    /// next is still in the first go-round. Returns whether the kyoku is
    /// aborted.
    pub fn check_four_wind(&mut self, pai: Tile, can_w_riichi: bool) -> (r: Result<bool, FourWindError>)
        ensures
            !is_wind(pai.id()) ==> r == Ok::<bool, FourWindError>(false) && final(self)@ == (
                old(self)@.0,
                false,
                old(self)@.2,
            ),
            is_wind(pai.id()) && can_w_riichi ==> r == Ok::<bool, FourWindError>(false) && final(self)@ == match old(
                self,
            )@.2 {
                Some(t) => (old(self)@.0, t == pai, old(self)@.2),
                None => (old(self)@.0, old(self)@.1, Some(pai)),
            },
            is_wind(pai.id()) && !can_w_riichi ==> match old(self)@.2 {
                Some(t) => if t == pai {
                    r == Ok::<bool, FourWindError>(true) && final(self)@ == old(self)@
                } else {
                    r == Ok::<bool, FourWindError>(false) && final(self)@ == (old(self)@.0, false, old(self)@.2)
                },
                None => r == Err::<bool, FourWindError>(FourWindError) && final(self)@ == old(self)@,
            },
    {
        let id = pai.as_u8();
        if !(27 <= id && id <= 30) {
            self.can_four_wind = false;
        } else if can_w_riichi {
            match self.four_wind_tile {
                Some(tile) => {
                    self.can_four_wind = tile == pai;
                },
                None => {
                    self.four_wind_tile = Some(pai);
                },
            }
        } else {
            match self.four_wind_tile {
                Some(tile) => {
                    if tile == pai {
                        return Ok(true);
                    }
                    self.can_four_wind = false;
                },
                None => {
                    return Err(FourWindError);
                },
            }
        }
        Ok(false)
    }
}

impl View for AbortChecks {
    type V = AbortModel;

    open spec fn view(&self) -> AbortModel {
        (self.can_nagashi_mangan@, self.can_four_wind, self.four_wind_tile)
    }
}

/// Seat's melds include a pon or an open kan of `id`.
pub open spec fn called(pons: Seq<u8>, minkans: Seq<u8>, id: int) -> bool {
    pons.contains(id as u8) || minkans.contains(id as u8)
}

/// Calling `pai` completes the third dragon or the fourth wind among the
/// seat's pons and open kans, which makes the seat that fed it liable for
/// the yakuman.
pub open spec fn confirms_pao(pons: Seq<u8>, minkans: Seq<u8>, pai: int) -> bool {
    ||| called(pons, minkans, 31) && called(pons, minkans, 32) && called(pons, minkans, 33) && 31 <= pai <= 33
    ||| called(pons, minkans, 27) && called(pons, minkans, 28) && called(pons, minkans, 29) && called(
        pons,
        minkans,
        30,
    ) && 27 <= pai <= 30
}

/// The liable seats after `ev`, `pons` and `minkans` being those of the
/// calling seat once the call is made.
pub open spec fn paos_after(paos: Seq<Option<u8>>, ev: Event, pons: Seq<u8>, minkans: Seq<u8>) -> Seq<Option<u8>> {
    match ev {
        Event::Pon { actor, target, pai, .. } | Event::Daiminkan { actor, target, pai, .. } => if 27 <= pai.id()
            <= 33 && confirms_pao(pons, minkans, pai.id()) {
            paos.update(actor as int, Some(target))
        } else {
            paos
        },
        _ => paos,
    }
}

fn mark_honors(seen: &mut [bool; 8], melds: &[u8])
    requires
        forall|i: int| 0 <= i < melds@.len() ==> #[trigger] melds@[i] < 35,
    ensures
        forall|k: int|
            0 <= k < 8 ==> #[trigger] final(seen)@[k] == (old(seen)@[k] || melds@.contains((27 + k) as u8)),
{
    let mut i: usize = 0;
    while i < melds.len()
        invariant
            i <= melds@.len(),
            forall|j: int| 0 <= j < melds@.len() ==> #[trigger] melds@[j] < 35,
            forall|k: int|
                0 <= k < 8 ==> #[trigger] seen@[k] == (old(seen)@[k] || melds@.subrange(0, i as int).contains(
                    (27 + k) as u8,
                )),
        decreases melds@.len() - i,
    {
        let t = melds[i];
        proof {
            assert forall|k: int| 0 <= k < 8 implies #[trigger] melds@.subrange(0, i + 1).contains((27 + k) as u8) == (
            melds@.subrange(0, i as int).contains((27 + k) as u8) || t == (27 + k) as u8) by {
                let s0 = melds@.subrange(0, i as int);
                let s1 = melds@.subrange(0, i + 1);
                assert(s1 =~= s0.push(t));
                if s1.contains((27 + k) as u8) {
                    let j = choose|j: int| 0 <= j < s1.len() && s1[j] == (27 + k) as u8;
                    if j < i {
                        assert(s0[j] == s1[j]);
                    }
                }
                if s0.contains((27 + k) as u8) {
                    let j = choose|j: int| 0 <= j < s0.len() && s0[j] == (27 + k) as u8;
                    assert(s1[j] == s0[j]);
                }
                if t == (27 + k) as u8 {
                    assert(s1[i as int] == t);
                }
            }
        }
        if t >= 27 {
            seen[(t - 27) as usize] = true;
        }
        i += 1;
    }
    proof {
        assert(melds@.subrange(0, melds@.len() as int) =~= melds@);
    }
}

/// Marks the calling seat liable-to (`paos[actor] = target`) when a pon or
/// open kan of an honor completes three dragons or four winds; `pons` and
/// `minkans` are the calling seat's melds, this call included.
pub fn update_paos(paos: &mut [Option<u8>; 4], ev: &Event, pons: &[u8], minkans: &[u8])
    requires
        ev matches Event::Pon { actor, .. } ==> actor < 4,
        ev matches Event::Daiminkan { actor, .. } ==> actor < 4,
        forall|i: int| 0 <= i < pons@.len() ==> #[trigger] pons@[i] < 35,
        forall|i: int| 0 <= i < minkans@.len() ==> #[trigger] minkans@[i] < 35,
    ensures
        final(paos)@ == paos_after(old(paos)@, *ev, pons@, minkans@),
{
    match ev {
        Event::Pon { actor, target, pai, .. } | Event::Daiminkan { actor, target, pai, .. } => {
            if pai.is_jihai() {
                let mut seen: [bool; 8] = [false; 8];
                mark_honors(&mut seen, pons);
                mark_honors(&mut seen, minkans);
                let id = pai.as_u8();
                let daisangen_confirmed = seen[4] && seen[5] && seen[6];
                let daisuushi_confirmed = seen[0] && seen[1] && seen[2] && seen[3];
                if daisangen_confirmed && 31 <= id && id <= 33 || daisuushi_confirmed && 27 <= id && id <= 30 {
                    paos[*actor as usize] = Some(*target);
                }
            }
        },
        _ => {},
    }
}


/// How a step ends the kyoku: the wall is exhausted (the caller settles
/// it with `exhaustive_ryukyoku`), it is aborted (a draw with no payment),
/// or a seat wins (`actor` on `target`'s tile; `actor == target` is a
/// tsumo).
#[derive(Debug, Clone, Copy, PartialEq, Eq)]
pub enum KyokuEnd {
    Exhaustive,
    Abortive,
    Hora { actor: u8, target: u8 },
}

/// Why a step cannot go on.
#[derive(Debug, Clone, Copy, PartialEq, Eq)]
pub enum StepError {
    /// A tile is to be drawn but the live wall is empty.
    EmptyWall,
    /// A tile is to be drawn after a kan but the rinshan tiles are gone.
    EmptyRinshan,
    /// A dora indicator is to be revealed but none is left.
    NoDoraIndicator,
    /// The four-winds check met a discard it cannot place.
    FourWind,
    /// The chosen event is not one a seat can react with.
    UnexpectedEvent,
}

/// What a step does: the events it emits before the chosen reaction,
/// whether the chosen reaction itself is taken and emitted, the events
/// after it, and whether the kyoku ends.
pub struct StepOutcome {
    pub before: Vec<Event>,
    pub takes_chosen: bool,
    pub after: Vec<Event>,
    pub end: Option<KyokuEnd>,
}

pub struct OutcomeView {
    pub before: Seq<Event>,
    pub takes_chosen: bool,
    pub after: Seq<Event>,
    pub end: Option<KyokuEnd>,
}

impl View for StepOutcome {
    type V = OutcomeView;

    open spec fn view(&self) -> OutcomeView {
        OutcomeView { before: self.before@, takes_chosen: self.takes_chosen, after: self.after@, end: self.end }
    }
}

/// The state of a kyoku between two steps: the tiles still to come, whose
/// turn it is, what a kan left pending, the riichi sticks and the abort
/// checks.
pub struct KyokuFlow {
    pub kyoku: u8,
    pub honba: u8,
    pub kyotaku: u8,
    pub oya: u8,
    /// The round wind.
    pub bakaze: Tile,
    pub scores: [i32; 4],
    pub haipai: [[Tile; 13]; 4],
    /// Goes backward (pop).
    pub yama: Vec<Tile>,
    /// Goes backward (pop).
    pub rinshan: Vec<Tile>,
    /// Goes backward (pop).
    pub dora_indicators: Vec<Tile>,
    /// 70 before the deal.
    pub tiles_left: u8,
    pub tsumo_actor: u8,
    pub deal_from_rinshan: bool,
    pub need_new_dora_at_discard: bool,
    pub need_new_dora_at_tsumo: bool,
    pub riichi_to_be_accepted: Option<u8>,
    pub accepted_riichis: u8,
    pub kans: u8,
    pub check_four_kan: bool,
    pub checks: AbortChecks,
}

pub struct FlowView {
    pub kyoku: u8,
    pub honba: u8,
    pub kyotaku: u8,
    pub oya: u8,
    pub bakaze: Tile,
    pub scores: [i32; 4],
    pub haipai: [[Tile; 13]; 4],
    pub yama: Seq<Tile>,
    pub rinshan: Seq<Tile>,
    pub dora_indicators: Seq<Tile>,
    pub tiles_left: u8,
    pub tsumo_actor: u8,
    pub deal_from_rinshan: bool,
    pub need_new_dora_at_discard: bool,
    pub need_new_dora_at_tsumo: bool,
    pub riichi_to_be_accepted: Option<u8>,
    pub accepted_riichis: u8,
    pub kans: u8,
    pub check_four_kan: bool,
    pub checks: AbortModel,
}

impl View for KyokuFlow {
    type V = FlowView;

    open spec fn view(&self) -> FlowView {
        FlowView {
            kyoku: self.kyoku,
            honba: self.honba,
            kyotaku: self.kyotaku,
            oya: self.oya,
            bakaze: self.bakaze,
            scores: self.scores,
            haipai: self.haipai,
            yama: self.yama@,
            rinshan: self.rinshan@,
            dora_indicators: self.dora_indicators@,
            tiles_left: self.tiles_left,
            tsumo_actor: self.tsumo_actor,
            deal_from_rinshan: self.deal_from_rinshan,
            need_new_dora_at_discard: self.need_new_dora_at_discard,
            need_new_dora_at_tsumo: self.need_new_dora_at_tsumo,
            riichi_to_be_accepted: self.riichi_to_be_accepted,
            accepted_riichis: self.accepted_riichis,
            kans: self.kans,
            check_four_kan: self.check_four_kan,
            checks: self.checks@,
        }
    }
}

pub open spec fn outcome(before: Seq<Event>, takes_chosen: bool, after: Seq<Event>, end: Option<KyokuEnd>) -> Result<
    OutcomeView,
    StepError,
> {
    Ok(OutcomeView { before, takes_chosen, after, end })
}

pub open spec fn result_view(r: Result<StepOutcome, StepError>) -> Result<OutcomeView, StepError> {
    match r {
        Ok(o) => Ok(o@),
        Err(e) => Err(e),
    }
}

/// A pending riichi is accepted: the seat pays its 1000-point stick.
pub open spec fn accept_riichi(s: FlowView) -> (FlowView, Seq<Event>) {
    match s.riichi_to_be_accepted {
        Some(a) => (
            FlowView {
                scores: vstd::array::spec_array_update(s.scores, a as int, (s.scores[a as int] - 1000) as i32),
                kyotaku: (s.kyotaku + 1) as u8,
                accepted_riichis: (s.accepted_riichis + 1) as u8,
                riichi_to_be_accepted: None,
                ..s
            },
            seq![Event::ReachAccepted { actor: a }],
        ),
        None => (s, Seq::empty()),
    }
}

/// The next dora indicator is revealed, if one is left.
pub open spec fn reveal_dora(s: FlowView) -> Option<(FlowView, Event)> {
    if s.dora_indicators.len() == 0 {
        None
    } else {
        Some(
            (
                FlowView { dora_indicators: s.dora_indicators.drop_last(), ..s },
                Event::Dora { dora_marker: s.dora_indicators.last() },
            ),
        )
    }
}

/// What the four-winds check does with the discard `pai`.
pub open spec fn four_wind_after(c: AbortModel, pai: Tile, can_w_riichi: bool) -> (AbortModel, Result<
    bool,
    FourWindError,
>) {
    if !is_wind(pai.id()) {
        ((c.0, false, c.2), Ok(false))
    } else if can_w_riichi {
        match c.2 {
            Some(t) => ((c.0, t == pai, c.2), Ok(false)),
            None => ((c.0, c.1, Some(pai)), Ok(false)),
        }
    } else {
        match c.2 {
            Some(t) => if t == pai {
                (c, Ok(true))
            } else {
                ((c.0, false, c.2), Ok(false))
            },
            None => (c, Err(FourWindError)),
        }
    }
}

/// The deal: the first dora indicator is revealed and the dealer draws.
pub open spec fn spec_haipai(s: FlowView) -> (FlowView, Result<OutcomeView, StepError>) {
    match reveal_dora(s) {
        None => (s, Err(StepError::NoDoraIndicator)),
        Some((s1, _)) => {
            let start = Event::StartKyoku {
                bakaze: s.bakaze,
                dora_marker: s.dora_indicators.last(),
                kyoku: (s.oya + 1) as u8,
                honba: s.honba,
                kyotaku: s.kyotaku,
                oya: s.oya,
                scores: s.scores,
                tehais: s.haipai,
            };
            if s1.yama.len() == 0 {
                (s1, Err(StepError::EmptyWall))
            } else {
                let s2 = FlowView { yama: s1.yama.drop_last(), tiles_left: (s1.tiles_left - 1) as u8, ..s1 };
                (
                    s2,
                    outcome(
                        seq![start, Event::Tsumo { actor: s.oya, pai: s1.yama.last() }],
                        false,
                        Seq::empty(),
                        None,
                    ),
                )
            }
        },
    }
}

/// Nobody called: a pending riichi is accepted and the seat to move
/// draws, from the rinshan tiles after a kan, revealing the dora that a
/// kakan left pending.
pub open spec fn spec_draw(s: FlowView) -> (FlowView, Result<OutcomeView, StepError>) {
    let (s1, acc) = accept_riichi(s);
    let from_rinshan = s1.deal_from_rinshan;
    let s2 = FlowView { deal_from_rinshan: false, ..s1 };
    if from_rinshan && s2.rinshan.len() == 0 {
        (s2, Err(StepError::EmptyRinshan))
    } else if !from_rinshan && s2.yama.len() == 0 {
        (s2, Err(StepError::EmptyWall))
    } else {
        let pai = if from_rinshan { s2.rinshan.last() } else { s2.yama.last() };
        let s3 = if from_rinshan {
            FlowView { rinshan: s2.rinshan.drop_last(), tiles_left: (s2.tiles_left - 1) as u8, ..s2 }
        } else {
            FlowView { yama: s2.yama.drop_last(), tiles_left: (s2.tiles_left - 1) as u8, ..s2 }
        };
        let tsumo = Event::Tsumo { actor: s3.tsumo_actor, pai };
        if s3.need_new_dora_at_tsumo {
            let s4 = FlowView { need_new_dora_at_tsumo: false, ..s3 };
            match reveal_dora(s4) {
                None => (s4, Err(StepError::NoDoraIndicator)),
                Some((s5, dora)) => (s5, outcome(acc.push(dora).push(tsumo), false, Seq::empty(), None)),
            }
        } else {
            (s3, outcome(acc.push(tsumo), false, Seq::empty(), None))
        }
    }
}

/// A discard: the dora that an open kan left pending is revealed, the
/// turn passes on, and the four winds and four kans are checked.
pub open spec fn spec_discard(s: FlowView, actor: u8, pai: Tile, seat_kans: [u8; 4], can_w_riichi: bool) -> (
    FlowView,
    Result<OutcomeView, StepError>,
) {
    let (s1, pre) = if s.need_new_dora_at_discard {
        let t = FlowView { need_new_dora_at_discard: false, ..s };
        match reveal_dora(t) {
            None => (t, None::<Seq<Event>>),
            Some((t2, dora)) => (t2, Some(seq![dora])),
        }
    } else {
        (s, Some(Seq::<Event>::empty()))
    };
    match pre {
        None => (s1, Err(StepError::NoDoraIndicator)),
        Some(before) => {
            let s2 = FlowView { tsumo_actor: ((actor + 1) % 4) as u8, ..s1 };
            let (c, fw) = if s2.checks.1 {
                four_wind_after(s2.checks, pai, can_w_riichi)
            } else {
                (s2.checks, Ok(false))
            };
            let s3 = FlowView { checks: c, ..s2 };
            match fw {
                Err(_) => (s3, Err(StepError::FourWind)),
                Ok(true) => (s3, outcome(before, true, Seq::empty(), Some(KyokuEnd::Abortive))),
                Ok(false) => {
                    let s4 = if s3.kans == 4 && seat_kans[0] < 4 && seat_kans[1] < 4 && seat_kans[2] < 4
                        && seat_kans[3] < 4 {
                        FlowView { check_four_kan: true, ..s3 }
                    } else {
                        s3
                    };
                    (s4, outcome(before, true, Seq::empty(), None))
                },
            }
        },
    }
}

/// A closed kan: a dora left pending is revealed first, the kan is taken,
/// its own dora is revealed at once, and the kanning seat draws next from
/// the rinshan tiles.
pub open spec fn spec_ankan(s: FlowView, actor: u8) -> (FlowView, Result<OutcomeView, StepError>) {
    let (s1, pre) = if s.need_new_dora_at_discard {
        let t = FlowView { need_new_dora_at_discard: false, ..s };
        match reveal_dora(t) {
            None => (t, None::<Seq<Event>>),
            Some((t2, dora)) => (t2, Some(seq![dora])),
        }
    } else {
        (s, Some(Seq::<Event>::empty()))
    };
    match pre {
        None => (s1, Err(StepError::NoDoraIndicator)),
        Some(before) => match reveal_dora(s1) {
            None => (s1, Err(StepError::NoDoraIndicator)),
            Some((s2, dora)) => (
                FlowView { tsumo_actor: actor, deal_from_rinshan: true, kans: (s2.kans + 1) as u8, ..s2 },
                outcome(before, true, seq![dora], None),
            ),
        },
    }
}

/// An open kan or an added kan: its dora is revealed at the next discard
/// (or, for an added kan after another kan, at the next draw), and the
/// kanning seat draws next from the rinshan tiles.
pub open spec fn spec_open_kan(s: FlowView, actor: u8) -> (FlowView, Result<OutcomeView, StepError>) {
    let s0 = if s.need_new_dora_at_discard {
        FlowView { need_new_dora_at_tsumo: true, ..s }
    } else {
        s
    };
    let (s1, acc) = accept_riichi(s0);
    (
        FlowView {
            need_new_dora_at_discard: true,
            tsumo_actor: actor,
            deal_from_rinshan: true,
            kans: (s1.kans + 1) as u8,
            ..s1
        },
        outcome(acc, true, Seq::empty(), None),
    )
}

/// One step of a kyoku on the chosen reaction, given each seat's number of
/// kans and whether the seat to draw next is still in its first go-round.
pub open spec fn spec_step(s: FlowView, chosen: Event, seat_kans: [u8; 4], can_w_riichi: bool) -> (
    FlowView,
    Result<OutcomeView, StepError>,
) {
    if s.tiles_left == 70 {
        spec_haipai(s)
    } else if s.accepted_riichis == 4 {
        (s, outcome(Seq::empty(), false, Seq::empty(), Some(KyokuEnd::Abortive)))
    } else if s.check_four_kan && !(chosen is Hora) {
        (s, outcome(Seq::empty(), false, Seq::empty(), Some(KyokuEnd::Abortive)))
    } else {
        let s1 = FlowView { checks: after_event(s.checks, chosen), ..s };
        match chosen {
            Event::Nothing => if s1.tiles_left == 0 {
                (s1, outcome(Seq::empty(), false, Seq::empty(), Some(KyokuEnd::Exhaustive)))
            } else {
                spec_draw(s1)
            },
            Event::Dahai { actor, pai, .. } => spec_discard(s1, actor, pai, seat_kans, can_w_riichi),
            Event::Chi { .. } | Event::Pon { .. } => {
                let (s2, acc) = accept_riichi(s1);
                (s2, outcome(acc, true, Seq::empty(), None))
            },
            Event::Ankan { actor, .. } => spec_ankan(s1, actor),
            Event::Daiminkan { actor, .. } | Event::Kakan { actor, .. } => spec_open_kan(s1, actor),
            Event::Reach { actor } => (
                FlowView { riichi_to_be_accepted: Some(actor), ..s1 },
                outcome(Seq::empty(), true, Seq::empty(), None),
            ),
            Event::Hora { actor, target, .. } => (
                s1,
                outcome(Seq::empty(), false, Seq::empty(), Some(KyokuEnd::Hora { actor, target })),
            ),
            Event::Ryukyoku { .. } => (s1, outcome(Seq::empty(), false, Seq::empty(), Some(KyokuEnd::Abortive))),
            _ => (s1, Err(StepError::UnexpectedEvent)),
        }
    }
}

/// The seats that a reaction names lie at the table.
pub open spec fn reaction_seats_ok(ev: Event) -> bool {
    match ev {
        Event::Dahai { actor, .. } | Event::Ankan { actor, .. } | Event::Kakan { actor, .. } | Event::Reach {
            actor,
        } => actor < 4,
        Event::Chi { actor, target, .. } | Event::Pon { actor, target, .. } | Event::Daiminkan {
            actor,
            target,
            ..
        } => actor < 4 && target < 4,
        _ => true,
    }
}

/// The counters that a step may raise stay within their bytes, and a
/// pending riichi names a seat that can pay its stick.
pub open spec fn flow_fits(s: FlowView) -> bool {
    &&& s.kans < 255
    &&& s.accepted_riichis < 255
    &&& s.kyotaku < 255
    &&& s.oya < 4
    &&& s.riichi_to_be_accepted matches Some(a) ==> a < 4 && s.scores[a as int] >= i32::MIN + 1000
}

impl KyokuFlow {
    /// The kyoku of `board`, before the deal: the dealer is seat
    /// `kyoku % 4`, the round wind follows from `kyoku / 4`, and all 70
    /// tiles of the live wall are still to come.
    pub fn from_board(board: Board) -> (r: KyokuFlow)
        requires
            board.kyoku < 44,
        ensures
            r@.kyoku == board.kyoku,
            r@.honba == board.honba,
            r@.kyotaku == board.kyotaku,
            r@.oya == board.kyoku % 4,
            r@.bakaze.id() == 27 + board.kyoku / 4,
            r@.scores == board.scores,
            r@.haipai == board.haipai,
            r@.yama == board.yama@,
            r@.rinshan == board.rinshan@,
            r@.dora_indicators == board.dora_indicators@,
            r@.tiles_left == 70,
            r@.tsumo_actor == 0,
            !r@.deal_from_rinshan && !r@.need_new_dora_at_discard && !r@.need_new_dora_at_tsumo,
            r@.riichi_to_be_accepted is None,
            r@.accepted_riichis == 0,
            r@.kans == 0,
            !r@.check_four_kan,
            r@.checks == (seq![true, true, true, true], true, None::<Tile>),
    {
        KyokuFlow {
            kyoku: board.kyoku,
            honba: board.honba,
            kyotaku: board.kyotaku,
            oya: board.kyoku % 4,
            bakaze: Tile::new(27 + board.kyoku / 4),
            scores: board.scores,
            haipai: board.haipai,
            yama: board.yama,
            rinshan: board.rinshan,
            dora_indicators: board.dora_indicators,
            tiles_left: 70,
            tsumo_actor: 0,
            deal_from_rinshan: false,
            need_new_dora_at_discard: false,
            need_new_dora_at_tsumo: false,
            riichi_to_be_accepted: None,
            accepted_riichis: 0,
            kans: 0,
            check_four_kan: false,
            checks: AbortChecks::new(),
        }
    }

    fn accept_riichi(&mut self, events: &mut Vec<Event>)
        requires
            flow_fits(old(self)@),
        ensures
            final(self)@ == accept_riichi(old(self)@).0,
            final(events)@ == old(events)@ + accept_riichi(old(self)@).1,
    {
        if let Some(actor) = self.riichi_to_be_accepted {
            events.push(Event::ReachAccepted { actor });
            self.scores[actor as usize] = self.scores[actor as usize] - 1000;
            self.kyotaku = self.kyotaku + 1;
            self.accepted_riichis = self.accepted_riichis + 1;
            self.riichi_to_be_accepted = None;
            proof {
                broadcast use vstd::array::group_array_axioms;

                assert(self.scores =~= vstd::array::spec_array_update(
                    old(self).scores,
                    actor as int,
                    (old(self).scores[actor as int] - 1000) as i32,
                ));
            }
        } else {
            proof {
                assert(events@ =~= old(events)@ + Seq::<Event>::empty());
            }
        }
        proof {
            assert(self@ == accept_riichi(old(self)@).0);
        }
    }

    fn reveal_dora(&mut self) -> (r: Option<Event>)
        ensures
            match reveal_dora(old(self)@) {
                None => r is None && final(self)@ == old(self)@,
                Some((s, ev)) => r == Some(ev) && final(self)@ == s,
            },
    {
        match self.dora_indicators.pop() {
            Some(t) => Some(Event::Dora { dora_marker: t }),
            None => None,
        }
    }

    fn finish(before: Vec<Event>, takes_chosen: bool, after: Vec<Event>, end: Option<KyokuEnd>) -> (r: Result<
        StepOutcome,
        StepError,
    >)
        ensures
            result_view(r) == outcome(before@, takes_chosen, after@, end),
    {
        Ok(StepOutcome { before, takes_chosen, after, end })
    }

    fn ends(end: KyokuEnd) -> (r: Result<StepOutcome, StepError>)
        ensures
            result_view(r) == outcome(Seq::empty(), false, Seq::empty(), Some(end)),
    {
        let before: Vec<Event> = Vec::new();
        let after: Vec<Event> = Vec::new();
        proof {
            assert(before@ =~= Seq::<Event>::empty());
            assert(after@ =~= Seq::<Event>::empty());
        }
        Self::finish(before, false, after, Some(end))
    }

    fn haipai(&mut self) -> (r: Result<StepOutcome, StepError>)
        requires
            old(self)@.tiles_left == 70,
            old(self)@.oya < 4,
        ensures
            (final(self)@, result_view(r)) == spec_haipai(old(self)@),
    {
        let dora_marker = match self.dora_indicators.pop() {
            Some(t) => t,
            None => return Err(StepError::NoDoraIndicator),
        };
        let start = Event::StartKyoku {
            bakaze: self.bakaze,
            dora_marker,
            kyoku: self.oya + 1,
            honba: self.honba,
            kyotaku: self.kyotaku,
            oya: self.oya,
            scores: self.scores,
            tehais: self.haipai,
        };
        let pai = match self.yama.pop() {
            Some(t) => t,
            None => return Err(StepError::EmptyWall),
        };
        self.tiles_left = self.tiles_left - 1;
        let ghost start_v = start;
        let mut before = Vec::new();
        before.push(start);
        before.push(Event::Tsumo { actor: self.oya, pai });
        proof {
            assert(before@ =~= seq![start_v, Event::Tsumo { actor: self.oya, pai }]);
        }
        let after: Vec<Event> = Vec::new();
        proof {
            assert(after@ =~= Seq::<Event>::empty());
        }
        Self::finish(before, false, after, None)
    }

    fn draw(&mut self) -> (r: Result<StepOutcome, StepError>)
        requires
            flow_fits(old(self)@),
            old(self)@.tiles_left > 0,
        ensures
            (final(self)@, result_view(r)) == spec_draw(old(self)@),
    {
        let mut before: Vec<Event> = Vec::new();
        proof {
            assert(before@ =~= Seq::<Event>::empty());
        }
        self.accept_riichi(&mut before);
        let from_rinshan = self.deal_from_rinshan;
        self.deal_from_rinshan = false;
        let pai = if from_rinshan {
            match self.rinshan.pop() {
                Some(t) => t,
                None => return Err(StepError::EmptyRinshan),
            }
        } else {
            match self.yama.pop() {
                Some(t) => t,
                None => return Err(StepError::EmptyWall),
            }
        };
        self.tiles_left = self.tiles_left - 1;
        let tsumo = Event::Tsumo { actor: self.tsumo_actor, pai };
        if self.need_new_dora_at_tsumo {
            self.need_new_dora_at_tsumo = false;
            match self.reveal_dora() {
                Some(dora) => before.push(dora),
                None => return Err(StepError::NoDoraIndicator),
            }
        }
        before.push(tsumo);
        let after: Vec<Event> = Vec::new();
        proof {
            assert(after@ =~= Seq::<Event>::empty());
        }
        Self::finish(before, false, after, None)
    }

    fn discard(&mut self, actor: u8, pai: Tile, seat_kans: [u8; 4], can_w_riichi: bool) -> (r: Result<
        StepOutcome,
        StepError,
    >)
        requires
            actor < 4,
        ensures
            (final(self)@, result_view(r)) == spec_discard(old(self)@, actor, pai, seat_kans, can_w_riichi),
    {
        let mut before: Vec<Event> = Vec::new();
        if self.need_new_dora_at_discard {
            self.need_new_dora_at_discard = false;
            match self.reveal_dora() {
                Some(dora) => before.push(dora),
                None => return Err(StepError::NoDoraIndicator),
            }
            proof {
                assert(before@ =~= seq![before@[0]]);
            }
        } else {
            proof {
                assert(before@ =~= Seq::<Event>::empty());
            }
        }
        self.tsumo_actor = (actor + 1) % 4;
        let after: Vec<Event> = Vec::new();
        proof {
            assert(after@ =~= Seq::<Event>::empty());
        }
        if self.checks.can_four_wind {
            match self.checks.check_four_wind(pai, can_w_riichi) {
                Err(_) => return Err(StepError::FourWind),
                Ok(true) => return Self::finish(before, true, after, Some(KyokuEnd::Abortive)),
                Ok(false) => {},
            }
        }
        if self.kans == 4 && seat_kans[0] < 4 && seat_kans[1] < 4 && seat_kans[2] < 4 && seat_kans[3] < 4 {
            self.check_four_kan = true;
        }
        Self::finish(before, true, after, None)
    }

    fn ankan(&mut self, actor: u8) -> (r: Result<StepOutcome, StepError>)
        requires
            flow_fits(old(self)@),
        ensures
            (final(self)@, result_view(r)) == spec_ankan(old(self)@, actor),
    {
        let mut before: Vec<Event> = Vec::new();
        if self.need_new_dora_at_discard {
            self.need_new_dora_at_discard = false;
            match self.reveal_dora() {
                Some(dora) => before.push(dora),
                None => return Err(StepError::NoDoraIndicator),
            }
            proof {
                assert(before@ =~= seq![before@[0]]);
            }
        } else {
            proof {
                assert(before@ =~= Seq::<Event>::empty());
            }
        }
        let mut after: Vec<Event> = Vec::new();
        match self.reveal_dora() {
            Some(dora) => after.push(dora),
            None => return Err(StepError::NoDoraIndicator),
        }
        proof {
            assert(after@ =~= seq![after@[0]]);
        }
        self.tsumo_actor = actor;
        self.deal_from_rinshan = true;
        self.kans = self.kans + 1;
        Self::finish(before, true, after, None)
    }

    fn open_kan(&mut self, actor: u8) -> (r: Result<StepOutcome, StepError>)
        requires
            flow_fits(old(self)@),
        ensures
            (final(self)@, result_view(r)) == spec_open_kan(old(self)@, actor),
    {
        if self.need_new_dora_at_discard {
            self.need_new_dora_at_tsumo = true;
        }
        let mut before: Vec<Event> = Vec::new();
        proof {
            assert(before@ =~= Seq::<Event>::empty());
        }
        self.accept_riichi(&mut before);
        self.need_new_dora_at_discard = true;
        self.tsumo_actor = actor;
        self.deal_from_rinshan = true;
        self.kans = self.kans + 1;
        let after: Vec<Event> = Vec::new();
        proof {
            assert(after@ =~= Seq::<Event>::empty());
        }
        Self::finish(before, true, after, None)
    }

    /// One step of the kyoku on `chosen`, the reaction taken among the four
    /// (see `pick_reaction`), each seat's reaction having been checked with
    /// `validate_reaction`. `seat_kans` are the seats' numbers of kans and
    /// `can_w_riichi` tells whether the seat to draw after a discard is
    /// still in its first go-round. Before the deal, it deals; with four
    /// accepted riichis, or four kans by several seats followed by anything
    /// but a win, the kyoku is aborted; else the abort checks see `chosen`
    /// and the kyoku moves on as `chosen` says. Fails when a tile or a dora
    /// indicator is to be taken from an empty pile, when the four-winds
    /// check cannot place a discard, and on an event that is no reaction.
    pub fn step(&mut self, chosen: &Event, seat_kans: [u8; 4], can_w_riichi: bool) -> (r: Result<
        StepOutcome,
        StepError,
    >)
        requires
            flow_fits(old(self)@),
            reaction_seats_ok(*chosen),
        ensures
            (final(self)@, result_view(r)) == spec_step(old(self)@, *chosen, seat_kans, can_w_riichi),
    {
        if self.tiles_left == 70 {
            return self.haipai();
        }
        if self.accepted_riichis == 4 {
            return Self::ends(KyokuEnd::Abortive);
        }
        let is_hora = matches!(chosen, Event::Hora { .. });
        if self.check_four_kan && !is_hora {
            return Self::ends(KyokuEnd::Abortive);
        }
        self.checks.update_nagashi_mangan_and_four_wind(chosen);
        match chosen {
            Event::Nothing => {
                if self.tiles_left == 0 {
                    return Self::ends(KyokuEnd::Exhaustive);
                }
                self.draw()
            },
            Event::Dahai { actor, pai, .. } => self.discard(*actor, *pai, seat_kans, can_w_riichi),
            Event::Chi { .. } | Event::Pon { .. } => {
                let mut before: Vec<Event> = Vec::new();
                proof {
                    assert(before@ =~= Seq::<Event>::empty());
                }
                self.accept_riichi(&mut before);
                let after: Vec<Event> = Vec::new();
                proof {
                    assert(after@ =~= Seq::<Event>::empty());
                }
                Self::finish(before, true, after, None)
            },
            Event::Ankan { actor, .. } => self.ankan(*actor),
            Event::Daiminkan { actor, .. } | Event::Kakan { actor, .. } => self.open_kan(*actor),
            Event::Reach { actor } => {
                self.riichi_to_be_accepted = Some(*actor);
                let before: Vec<Event> = Vec::new();
                let after: Vec<Event> = Vec::new();
                proof {
                    assert(before@ =~= Seq::<Event>::empty());
                    assert(after@ =~= Seq::<Event>::empty());
                }
                Self::finish(before, true, after, None)
            },
            Event::Hora { actor, target, .. } => Self::ends(KyokuEnd::Hora { actor: *actor, target: *target }),
            Event::Ryukyoku { .. } => Self::ends(KyokuEnd::Abortive),
            _ => Err(StepError::UnexpectedEvent),
        }
    }
}

/// The tile that an emitted event shows from the piles: a drawn tile or a
/// revealed dora indicator.
pub open spec fn tile_shown(ev: Event) -> Multiset<Tile> {
    match ev {
        Event::Tsumo { pai, .. } => Multiset::singleton(pai),
        Event::Dora { dora_marker } => Multiset::singleton(dora_marker),
        Event::StartKyoku { dora_marker, .. } => Multiset::singleton(dora_marker),
        _ => Multiset::empty(),
    }
}

pub open spec fn tiles_shown(evs: Seq<Event>) -> Multiset<Tile>
    decreases evs.len(),
{
    if evs.len() == 0 {
        Multiset::empty()
    } else {
        tiles_shown(evs.drop_last()).add(tile_shown(evs.last()))
    }
}

/// The tiles still in the live wall, the rinshan tiles and the dora
/// indicators.
pub open spec fn pile_tiles(s: FlowView) -> Multiset<Tile> {
    s.yama.to_multiset().add(s.rinshan.to_multiset()).add(s.dora_indicators.to_multiset())
}

proof fn lemma_pop(q: Seq<Tile>)
    requires
        q.len() > 0,
    ensures
        q.to_multiset() == q.drop_last().to_multiset().add(Multiset::singleton(q.last())),
{
    broadcast use vstd::seq_lib::group_to_multiset_ensures;
    broadcast use vstd::multiset::group_multiset_axioms;

    assert(q =~= q.drop_last().push(q.last()));
    assert(q.drop_last().to_multiset().insert(q.last()) =~= q.drop_last().to_multiset().add(
        Multiset::singleton(q.last()),
    ));
}

proof fn lemma_shown_push(a: Seq<Event>, e: Event)
    ensures
        tiles_shown(a.push(e)) == tiles_shown(a).add(tile_shown(e)),
{
    assert(a.push(e).drop_last() =~= a);
}

proof fn lemma_shown_accept(s: FlowView)
    ensures
        tiles_shown(accept_riichi(s).1) == Multiset::<Tile>::empty(),
        pile_tiles(accept_riichi(s).0) == pile_tiles(s),
{
    broadcast use vstd::multiset::group_multiset_axioms;

    if let Some(a) = s.riichi_to_be_accepted {
        lemma_shown_push(Seq::empty(), Event::ReachAccepted { actor: a });
        assert(Seq::<Event>::empty().push(Event::ReachAccepted { actor: a }) =~= seq![Event::ReachAccepted { actor: a }]);
        assert(tiles_shown(Seq::<Event>::empty()).add(Multiset::empty()) =~= Multiset::<Tile>::empty());
    }
}

proof fn lemma_reveal_tiles(s: FlowView)
    requires
        reveal_dora(s) is Some,
    ensures
        pile_tiles(s) == pile_tiles(reveal_dora(s).unwrap().0).add(tile_shown(reveal_dora(s).unwrap().1)),
{
    broadcast use vstd::multiset::group_multiset_axioms;

    lemma_pop(s.dora_indicators);
    let s2 = reveal_dora(s).unwrap().0;
    assert(pile_tiles(s) =~= pile_tiles(s2).add(tile_shown(reveal_dora(s).unwrap().1)));
}

/// A step takes no tile out of nowhere and loses none: the tiles left in
/// the piles before it are those left after it and those that it shows (the
/// tiles drawn and the dora indicators revealed).
pub proof fn lemma_step_keeps_tiles(s: FlowView, chosen: Event, seat_kans: [u8; 4], can_w_riichi: bool)
    ensures
        spec_step(s, chosen, seat_kans, can_w_riichi) matches (s2, Ok(o)) ==> pile_tiles(s) == pile_tiles(s2).add(
            tiles_shown(o.before),
        ).add(tiles_shown(o.after)),
{
    broadcast use vstd::multiset::group_multiset_axioms;

    let e = Seq::<Event>::empty();
    assert(tiles_shown(e) == Multiset::<Tile>::empty());
    let r = spec_step(s, chosen, seat_kans, can_w_riichi);
    if r.1 is Ok {
        let (s2, o) = (r.0, r.1->Ok_0);
        if s.tiles_left == 70 {
            let s1 = reveal_dora(s).unwrap().0;
            lemma_reveal_tiles(s);
            lemma_pop(s1.yama);
            let start = o.before[0];
            let ts = o.before[1];
            assert(o.before =~= e.push(start).push(ts));
            lemma_shown_push(e, start);
            lemma_shown_push(e.push(start), ts);
            assert(pile_tiles(s1) =~= pile_tiles(s2).add(tile_shown(ts)));
            assert(pile_tiles(s) =~= pile_tiles(s2).add(tiles_shown(o.before)).add(tiles_shown(o.after)));
        } else if s.accepted_riichis == 4 || (s.check_four_kan && !(chosen is Hora)) {
            assert(pile_tiles(s) =~= pile_tiles(s2).add(tiles_shown(o.before)).add(tiles_shown(o.after)));
        } else {
            let s1 = FlowView { checks: after_event(s.checks, chosen), ..s };
            assert(pile_tiles(s1) == pile_tiles(s));
            match chosen {
                Event::Nothing => {
                    if s1.tiles_left != 0 {
                        lemma_draw_tiles(s1);
                    } else {
                        assert(pile_tiles(s) =~= pile_tiles(s2).add(tiles_shown(o.before)).add(
                            tiles_shown(o.after),
                        ));
                    }
                },
                Event::Dahai { actor, pai, .. } => lemma_discard_tiles(s1, actor, pai, seat_kans, can_w_riichi),
                Event::Chi { .. } | Event::Pon { .. } => {
                    lemma_shown_accept(s1);
                    assert(pile_tiles(s) =~= pile_tiles(s2).add(tiles_shown(o.before)).add(tiles_shown(o.after)));
                },
                Event::Ankan { actor, .. } => lemma_ankan_tiles(s1, actor),
                Event::Daiminkan { actor, .. } | Event::Kakan { actor, .. } => {
                    let s0 = if s1.need_new_dora_at_discard {
                        FlowView { need_new_dora_at_tsumo: true, ..s1 }
                    } else {
                        s1
                    };
                    assert(pile_tiles(s0) == pile_tiles(s1));
                    lemma_shown_accept(s0);
                    assert(pile_tiles(s) =~= pile_tiles(s2).add(tiles_shown(o.before)).add(tiles_shown(o.after)));
                },
                _ => {
                    assert(pile_tiles(s) =~= pile_tiles(s2).add(tiles_shown(o.before)).add(tiles_shown(o.after)));
                },
            }
        }
    }
}

proof fn lemma_draw_tiles(s: FlowView)
    ensures
        spec_draw(s) matches (s2, Ok(o)) ==> pile_tiles(s) == pile_tiles(s2).add(tiles_shown(o.before)).add(
            tiles_shown(o.after),
        ),
{
    broadcast use vstd::multiset::group_multiset_axioms;

    let r = spec_draw(s);
    if r.1 is Ok {
        let (s2, o) = (r.0, r.1->Ok_0);
        let (s1, acc) = accept_riichi(s);
        lemma_shown_accept(s);
        let from_rinshan = s1.deal_from_rinshan;
        let sd = FlowView { deal_from_rinshan: false, ..s1 };
        assert(pile_tiles(sd) == pile_tiles(s1));
        let pai = if from_rinshan { sd.rinshan.last() } else { sd.yama.last() };
        let s3 = if from_rinshan {
            FlowView { rinshan: sd.rinshan.drop_last(), tiles_left: (sd.tiles_left - 1) as u8, ..sd }
        } else {
            FlowView { yama: sd.yama.drop_last(), tiles_left: (sd.tiles_left - 1) as u8, ..sd }
        };
        let tsumo = Event::Tsumo { actor: s3.tsumo_actor, pai };
        if from_rinshan {
            lemma_pop(sd.rinshan);
        } else {
            lemma_pop(sd.yama);
        }
        assert(pile_tiles(sd) =~= pile_tiles(s3).add(tile_shown(tsumo)));
        if s3.need_new_dora_at_tsumo {
            let s4 = FlowView { need_new_dora_at_tsumo: false, ..s3 };
            assert(pile_tiles(s4) == pile_tiles(s3));
            lemma_reveal_tiles(s4);
            let dora = reveal_dora(s4).unwrap().1;
            lemma_shown_push(acc, dora);
            lemma_shown_push(acc.push(dora), tsumo);
        } else {
            lemma_shown_push(acc, tsumo);
        }
        assert(tiles_shown(o.after) == Multiset::<Tile>::empty());
        assert(pile_tiles(s) =~= pile_tiles(s2).add(tiles_shown(o.before)).add(tiles_shown(o.after)));
    }
}

proof fn lemma_discard_tiles(s: FlowView, actor: u8, pai: Tile, seat_kans: [u8; 4], can_w_riichi: bool)
    ensures
        spec_discard(s, actor, pai, seat_kans, can_w_riichi) matches (s2, Ok(o)) ==> pile_tiles(s) == pile_tiles(
            s2,
        ).add(tiles_shown(o.before)).add(tiles_shown(o.after)),
{
    broadcast use vstd::multiset::group_multiset_axioms;

    let e = Seq::<Event>::empty();
    assert(tiles_shown(e) == Multiset::<Tile>::empty());
    let r = spec_discard(s, actor, pai, seat_kans, can_w_riichi);
    if r.1 is Ok {
        let (s2, o) = (r.0, r.1->Ok_0);
        if s.need_new_dora_at_discard {
            let t = FlowView { need_new_dora_at_discard: false, ..s };
            assert(pile_tiles(t) == pile_tiles(s));
            lemma_reveal_tiles(t);
            let dora = reveal_dora(t).unwrap().1;
            assert(seq![dora] =~= e.push(dora));
            lemma_shown_push(e, dora);
        }
        assert(tiles_shown(o.after) == Multiset::<Tile>::empty());
        assert(pile_tiles(s) =~= pile_tiles(s2).add(tiles_shown(o.before)).add(tiles_shown(o.after)));
    }
}

proof fn lemma_ankan_tiles(s: FlowView, actor: u8)
    ensures
        spec_ankan(s, actor) matches (s2, Ok(o)) ==> pile_tiles(s) == pile_tiles(s2).add(tiles_shown(o.before)).add(
            tiles_shown(o.after),
        ),
{
    broadcast use vstd::multiset::group_multiset_axioms;

    let e = Seq::<Event>::empty();
    assert(tiles_shown(e) == Multiset::<Tile>::empty());
    let r = spec_ankan(s, actor);
    if r.1 is Ok {
        let (s2, o) = (r.0, r.1->Ok_0);
        let s1 = if s.need_new_dora_at_discard {
            let t = FlowView { need_new_dora_at_discard: false, ..s };
            assert(pile_tiles(t) == pile_tiles(s));
            lemma_reveal_tiles(t);
            let dora = reveal_dora(t).unwrap().1;
            assert(seq![dora] =~= e.push(dora));
            lemma_shown_push(e, dora);
            reveal_dora(t).unwrap().0
        } else {
            s
        };
        lemma_reveal_tiles(s1);
        let d2 = reveal_dora(s1).unwrap().1;
        assert(seq![d2] =~= e.push(d2));
        lemma_shown_push(e, d2);
        let s3 = reveal_dora(s1).unwrap().0;
        assert(pile_tiles(s2) == pile_tiles(s3));
        assert(pile_tiles(s) =~= pile_tiles(s2).add(tiles_shown(o.before)).add(tiles_shown(o.after)));
    }
}

} // verus!
