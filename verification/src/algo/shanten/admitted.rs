//! Every hand that `calc_normal` and `calc_all` admit (at most 4 of a
//! kind, `3m + 1` or `3m + 2` tiles) reads its regular-hand distance from
//! the lookup tables: the only such hands past the suit table's end are two
//! complete 14-tile hands in one suit, whose entries read as zeros.

use super::cover::{lemma_base5_le_max, lemma_covered_table, lemma_max_base5_mono, lemma_small_hands_table, max_base5};
use super::draw::{drawn, hand_size, lemma_group_size, lemma_seg_nonneg, lemma_seg_sub, seg_sum};
use super::{
    base5, combine, combine_split, digits5, entry_of, group, group_entry, group_table_entry, lemma_combine_le,
    lemma_digits5_base5, lemma_dist_range, lemma_entries, lemma_min_dist_lower_bound, min_dist, normal_distance,
    plan_cost, plan_ok, split_ok, split_sum, table_covers, table_distance, table_entry, Choice, JIHAI_TABLE_SIZE,
    SUHAI_TABLE_SIZE,
};
use super::honors::swap_tiles;
use super::reversal::reverse_suit;
use super::{all_shanten, chitoi_shanten, kokushi_shanten, min2};
use vstd::prelude::*;

verus! {

spec fn pow5(n: nat) -> int
    decreases n,
{
    if n == 0 {
        1
    } else {
        pow5((n - 1) as nat) * 5
    }
}

/// Reading counts front first: the first count weighs `5^(n-1)`.
proof fn lemma_base5_front(s: Seq<u8>)
    requires
        s.len() > 0,
    ensures
        base5(s) == s[0] * pow5((s.len() - 1) as nat) + base5(s.drop_first()),
    decreases s.len(),
{
    let n = s.len();
    if n == 1 {
        assert(s.drop_first() =~= Seq::<u8>::empty());
        assert(s.drop_last() =~= Seq::<u8>::empty());
    } else {
        let init = s.drop_last();
        lemma_base5_front(init);
        assert(init.drop_first() =~= s.drop_first().drop_last());
        assert(s.drop_first().last() == s.last());
        let p = pow5((n - 2) as nat);
        assert(s[0] * p * 5 == s[0] * (p * 5)) by (nonlinear_arith);
    }
}

proof fn lemma_max_base5_more()
    ensures
        max_base5(8, 14) == 388750,
        max_base5(7, 10) == 76250,
        max_base5(6, 6) == 13750,
        max_base5(5, 2) == 1250,
        max_base5(4, 1) == 125,
        max_base5(7, 14) == 77750,
{
    assert(max_base5(0, 0) == 0);
    assert(max_base5(0, 1) == 0);
    assert(max_base5(0, 2) == 0);
    assert(max_base5(0, 3) == 0);
    assert(max_base5(0, 4) == 0);
    assert(max_base5(0, 5) == 0);
    assert(max_base5(0, 6) == 0);
    assert(max_base5(0, 7) == 0);
    assert(max_base5(0, 8) == 0);
    assert(max_base5(0, 9) == 0);
    assert(max_base5(0, 10) == 0);
    assert(max_base5(0, 11) == 0);
    assert(max_base5(0, 12) == 0);
    assert(max_base5(0, 13) == 0);
    assert(max_base5(0, 14) == 0);
    assert(max_base5(1, 0) == 0);
    assert(max_base5(1, 1) == 1);
    assert(max_base5(1, 2) == 2);
    assert(max_base5(1, 3) == 3);
    assert(max_base5(1, 4) == 4);
    assert(max_base5(1, 5) == 4);
    assert(max_base5(1, 6) == 4);
    assert(max_base5(1, 7) == 4);
    assert(max_base5(1, 8) == 4);
    assert(max_base5(1, 9) == 4);
    assert(max_base5(1, 10) == 4);
    assert(max_base5(1, 11) == 4);
    assert(max_base5(1, 12) == 4);
    assert(max_base5(1, 13) == 4);
    assert(max_base5(1, 14) == 4);
    assert(max_base5(2, 0) == 0);
    assert(max_base5(2, 1) == 5);
    assert(max_base5(2, 2) == 10);
    assert(max_base5(2, 3) == 15);
    assert(max_base5(2, 4) == 20);
    assert(max_base5(2, 5) == 21);
    assert(max_base5(2, 6) == 22);
    assert(max_base5(2, 7) == 23);
    assert(max_base5(2, 8) == 24);
    assert(max_base5(2, 9) == 24);
    assert(max_base5(2, 10) == 24);
    assert(max_base5(2, 11) == 24);
    assert(max_base5(2, 12) == 24);
    assert(max_base5(2, 13) == 24);
    assert(max_base5(2, 14) == 24);
    assert(max_base5(3, 0) == 0);
    assert(max_base5(3, 1) == 25);
    assert(max_base5(3, 2) == 50);
    assert(max_base5(3, 3) == 75);
    assert(max_base5(3, 4) == 100);
    assert(max_base5(3, 5) == 105);
    assert(max_base5(3, 6) == 110);
    assert(max_base5(3, 7) == 115);
    assert(max_base5(3, 8) == 120);
    assert(max_base5(3, 9) == 121);
    assert(max_base5(3, 10) == 122);
    assert(max_base5(3, 11) == 123);
    assert(max_base5(3, 12) == 124);
    assert(max_base5(3, 13) == 124);
    assert(max_base5(3, 14) == 124);
    assert(max_base5(4, 0) == 0);
    assert(max_base5(4, 1) == 125);
    assert(max_base5(4, 2) == 250);
    assert(max_base5(4, 3) == 375);
    assert(max_base5(4, 4) == 500);
    assert(max_base5(4, 5) == 525);
    assert(max_base5(4, 6) == 550);
    assert(max_base5(4, 7) == 575);
    assert(max_base5(4, 8) == 600);
    assert(max_base5(4, 9) == 605);
    assert(max_base5(4, 10) == 610);
    assert(max_base5(4, 11) == 615);
    assert(max_base5(4, 12) == 620);
    assert(max_base5(4, 13) == 621);
    assert(max_base5(4, 14) == 622);
    assert(max_base5(5, 0) == 0);
    assert(max_base5(5, 1) == 625);
    assert(max_base5(5, 2) == 1250);
    assert(max_base5(5, 3) == 1875);
    assert(max_base5(5, 4) == 2500);
    assert(max_base5(5, 5) == 2625);
    assert(max_base5(5, 6) == 2750);
    assert(max_base5(5, 7) == 2875);
    assert(max_base5(5, 8) == 3000);
    assert(max_base5(5, 9) == 3025);
    assert(max_base5(5, 10) == 3050);
    assert(max_base5(5, 11) == 3075);
    assert(max_base5(5, 12) == 3100);
    assert(max_base5(5, 13) == 3105);
    assert(max_base5(5, 14) == 3110);
    assert(max_base5(6, 0) == 0);
    assert(max_base5(6, 1) == 3125);
    assert(max_base5(6, 2) == 6250);
    assert(max_base5(6, 3) == 9375);
    assert(max_base5(6, 4) == 12500);
    assert(max_base5(6, 5) == 13125);
    assert(max_base5(6, 6) == 13750);
    assert(max_base5(6, 7) == 14375);
    assert(max_base5(6, 8) == 15000);
    assert(max_base5(6, 9) == 15125);
    assert(max_base5(6, 10) == 15250);
    assert(max_base5(6, 11) == 15375);
    assert(max_base5(6, 12) == 15500);
    assert(max_base5(6, 13) == 15525);
    assert(max_base5(6, 14) == 15550);
    assert(max_base5(7, 0) == 0);
    assert(max_base5(7, 1) == 15625);
    assert(max_base5(7, 2) == 31250);
    assert(max_base5(7, 3) == 46875);
    assert(max_base5(7, 4) == 62500);
    assert(max_base5(7, 5) == 65625);
    assert(max_base5(7, 6) == 68750);
    assert(max_base5(7, 7) == 71875);
    assert(max_base5(7, 8) == 75000);
    assert(max_base5(7, 9) == 75625);
    assert(max_base5(7, 10) == 76250);
    assert(max_base5(7, 11) == 76875);
    assert(max_base5(7, 12) == 77500);
    assert(max_base5(7, 13) == 77625);
    assert(max_base5(7, 14) == 77750);
    assert(max_base5(8, 0) == 0);
    assert(max_base5(8, 1) == 78125);
    assert(max_base5(8, 2) == 156250);
    assert(max_base5(8, 3) == 234375);
    assert(max_base5(8, 4) == 312500);
    assert(max_base5(8, 5) == 328125);
    assert(max_base5(8, 6) == 343750);
    assert(max_base5(8, 7) == 359375);
    assert(max_base5(8, 8) == 375000);
    assert(max_base5(8, 9) == 378125);
    assert(max_base5(8, 10) == 381250);
    assert(max_base5(8, 11) == 384375);
    assert(max_base5(8, 12) == 387500);
    assert(max_base5(8, 13) == 388125);
    assert(max_base5(8, 14) == 388750);
}

proof fn lemma_zero_tail(d: Seq<u8>, k: int)
    requires
        0 <= k <= d.len(),
        seg_sum(d, k, d.len() as int) == 0,
    ensures
        forall|j: int| k <= j < d.len() ==> #[trigger] d[j] == 0,
    decreases d.len() - k,
{
    if k < d.len() {
        lemma_seg_nonneg(d, k + 1, d.len() as int);
        lemma_zero_tail(d, k + 1);
    }
}

/// The part of a suit from position `k` on: its reading and its size.
proof fn lemma_peel(d: Seq<u8>, k: int)
    requires
        d.len() == 9,
        0 <= k < 9,
        forall|i: int| 0 <= i < 9 ==> #[trigger] d[i] <= 4,
    ensures
        base5(d.subrange(k, 9)) == d[k] * pow5((8 - k) as nat) + base5(d.subrange(k + 1, 9)),
        base5(d.subrange(k + 1, 9)) <= max_base5((8 - k) as nat, seg_sum(d, k + 1, 9)),
        seg_sum(d, k, 9) == d[k] + seg_sum(d, k + 1, 9),
{
    let r = d.subrange(k, 9);
    lemma_base5_front(r);
    assert(r.drop_first() =~= d.subrange(k + 1, 9));
    let r1 = d.subrange(k + 1, 9);
    assert forall|i: int| 0 <= i < r1.len() implies #[trigger] r1[i] <= 4 by {
        assert(r1[i] == d[k + 1 + i]);
    }
    lemma_base5_le_max(r1);
    lemma_seg_sub(d, k + 1, 9, 0);
}

/// The suit counts of an admitted hand that lie past the suit table's end.
proof fn lemma_past_suit_table(d: Seq<u8>)
    requires
        d.len() == 9,
        forall|i: int| 0 <= i < 9 ==> #[trigger] d[i] <= 4,
        seg_sum(d, 0, 9) <= 14,
        base5(d) >= SUHAI_TABLE_SIZE,
    ensures
        d == seq![4u8, 4, 4, 2, 0, 0, 0, 0, 0] || d == seq![4u8, 4, 4, 1, 1, 0, 0, 0, 0],
{
    lemma_max_base5_more();
    assert(pow5(8) == 390625 && pow5(7) == 78125 && pow5(6) == 15625 && pow5(5) == 3125 && pow5(4) == 625) by {
        reveal_with_fuel(pow5, 9);
    }
    assert(d.subrange(0, 9) =~= d);
    lemma_peel(d, 0);
    lemma_peel(d, 1);
    lemma_peel(d, 2);
    lemma_peel(d, 3);
    lemma_peel(d, 4);
    lemma_seg_nonneg(d, 1, 9);
    lemma_seg_nonneg(d, 2, 9);
    lemma_seg_nonneg(d, 3, 9);
    lemma_seg_nonneg(d, 4, 9);
    lemma_seg_nonneg(d, 5, 9);
    lemma_max_base5_mono(8, seg_sum(d, 1, 9), 14);
    assert(d[0] == 4);
    lemma_max_base5_mono(7, seg_sum(d, 2, 9), 10);
    assert(d[1] == 4);
    lemma_max_base5_mono(6, seg_sum(d, 3, 9), 6);
    assert(d[2] == 4);
    lemma_max_base5_mono(5, seg_sum(d, 4, 9), 2);
    assert(d[3] == 1 || d[3] == 2);
    if d[3] == 2 {
        lemma_zero_tail(d, 4);
        assert(d =~= seq![4u8, 4, 4, 2, 0, 0, 0, 0, 0]);
    } else {
        lemma_max_base5_mono(4, seg_sum(d, 5, 9), 1);
        assert(d[4] == 1);
        lemma_zero_tail(d, 5);
        assert(d =~= seq![4u8, 4, 4, 1, 1, 0, 0, 0, 0]);
    }
}

/// The honor counts of an admitted hand lie inside the honor table.
proof fn lemma_honors_covered(d: Seq<u8>)
    requires
        d.len() == 7,
        forall|i: int| 0 <= i < 7 ==> #[trigger] d[i] <= 4,
        seg_sum(d, 0, 7) <= 14,
    ensures
        base5(d) < JIHAI_TABLE_SIZE,
{
    lemma_max_base5_more();
    lemma_base5_le_max(d);
    lemma_seg_nonneg(d, 0, 7);
    lemma_max_base5_mono(7, seg_sum(d, 0, 7), 14);
}

/// A decomposition of four sequences of 1-2-3 and a pair of 4.
spec fn plan_a() -> Seq<Choice> {
    seq![(0, 0, 4), (0, 0, 0), (0, 0, 0), (0, 1, 0), (0, 0, 0), (0, 0, 0), (0, 0, 0), (0, 0, 0), (0, 0, 0)]
}

/// A decomposition into 1-1-1, 1-2-3, 2-2-2, a pair of 3 and 3-4-5.
spec fn plan_b() -> Seq<Choice> {
    seq![(1, 0, 1), (1, 0, 0), (0, 1, 1), (0, 0, 0), (0, 0, 0), (0, 0, 0), (0, 0, 0), (0, 0, 0), (0, 0, 0)]
}

proof fn lemma_plan_a(d: Seq<u8>)
    requires
        d == seq![4u8, 4, 4, 2, 0, 0, 0, 0, 0],
    ensures
        plan_ok(d, false, 0, 9, 0, 0, 4, 1, plan_a()),
        plan_cost(d, 0, 0, 0, plan_a()) == 0,
{
    let p = plan_a();
    assert(plan_ok(d, false, 9, 9, 0, 0, 0, 0, p.subrange(9, 9)));
    assert(plan_cost(d, 9, 0, 0, p.subrange(9, 9)) == 0);
    assert(p.subrange(8, 9).drop_first() =~= p.subrange(9, 9));
    assert(plan_ok(d, false, 8, 9, 0, 0, 0, 0, p.subrange(8, 9)));
    assert(plan_cost(d, 8, 0, 0, p.subrange(8, 9)) == 0);
    assert(p.subrange(7, 9).drop_first() =~= p.subrange(8, 9));
    assert(plan_ok(d, false, 7, 9, 0, 0, 0, 0, p.subrange(7, 9)));
    assert(plan_cost(d, 7, 0, 0, p.subrange(7, 9)) == 0);
    assert(p.subrange(6, 9).drop_first() =~= p.subrange(7, 9));
    assert(plan_ok(d, false, 6, 9, 0, 0, 0, 0, p.subrange(6, 9)));
    assert(plan_cost(d, 6, 0, 0, p.subrange(6, 9)) == 0);
    assert(p.subrange(5, 9).drop_first() =~= p.subrange(6, 9));
    assert(plan_ok(d, false, 5, 9, 0, 0, 0, 0, p.subrange(5, 9)));
    assert(plan_cost(d, 5, 0, 0, p.subrange(5, 9)) == 0);
    assert(p.subrange(4, 9).drop_first() =~= p.subrange(5, 9));
    assert(plan_ok(d, false, 4, 9, 0, 0, 0, 0, p.subrange(4, 9)));
    assert(plan_cost(d, 4, 0, 0, p.subrange(4, 9)) == 0);
    assert(p.subrange(3, 9).drop_first() =~= p.subrange(4, 9));
    assert(plan_ok(d, false, 3, 9, 0, 0, 0, 1, p.subrange(3, 9)));
    assert(plan_cost(d, 3, 0, 0, p.subrange(3, 9)) == 0);
    assert(p.subrange(2, 9).drop_first() =~= p.subrange(3, 9));
    assert(plan_ok(d, false, 2, 9, 4, 0, 0, 1, p.subrange(2, 9)));
    assert(plan_cost(d, 2, 4, 0, p.subrange(2, 9)) == 0);
    assert(p.subrange(1, 9).drop_first() =~= p.subrange(2, 9));
    assert(plan_ok(d, false, 1, 9, 4, 4, 0, 1, p.subrange(1, 9)));
    assert(plan_cost(d, 1, 4, 4, p.subrange(1, 9)) == 0);
    assert(p.subrange(0, 9).drop_first() =~= p.subrange(1, 9));
    assert(plan_ok(d, false, 0, 9, 0, 0, 4, 1, p.subrange(0, 9)));
    assert(plan_cost(d, 0, 0, 0, p.subrange(0, 9)) == 0);
    assert(p.subrange(0, 9) =~= p);
}

proof fn lemma_plan_b(d: Seq<u8>)
    requires
        d == seq![4u8, 4, 4, 1, 1, 0, 0, 0, 0],
    ensures
        plan_ok(d, false, 0, 9, 0, 0, 4, 1, plan_b()),
        plan_cost(d, 0, 0, 0, plan_b()) == 0,
{
    let p = plan_b();
    assert(plan_ok(d, false, 9, 9, 0, 0, 0, 0, p.subrange(9, 9)));
    assert(plan_cost(d, 9, 0, 0, p.subrange(9, 9)) == 0);
    assert(p.subrange(8, 9).drop_first() =~= p.subrange(9, 9));
    assert(plan_ok(d, false, 8, 9, 0, 0, 0, 0, p.subrange(8, 9)));
    assert(plan_cost(d, 8, 0, 0, p.subrange(8, 9)) == 0);
    assert(p.subrange(7, 9).drop_first() =~= p.subrange(8, 9));
    assert(plan_ok(d, false, 7, 9, 0, 0, 0, 0, p.subrange(7, 9)));
    assert(plan_cost(d, 7, 0, 0, p.subrange(7, 9)) == 0);
    assert(p.subrange(6, 9).drop_first() =~= p.subrange(7, 9));
    assert(plan_ok(d, false, 6, 9, 0, 0, 0, 0, p.subrange(6, 9)));
    assert(plan_cost(d, 6, 0, 0, p.subrange(6, 9)) == 0);
    assert(p.subrange(5, 9).drop_first() =~= p.subrange(6, 9));
    assert(plan_ok(d, false, 5, 9, 0, 0, 0, 0, p.subrange(5, 9)));
    assert(plan_cost(d, 5, 0, 0, p.subrange(5, 9)) == 0);
    assert(p.subrange(4, 9).drop_first() =~= p.subrange(5, 9));
    assert(plan_ok(d, false, 4, 9, 1, 0, 0, 0, p.subrange(4, 9)));
    assert(plan_cost(d, 4, 1, 0, p.subrange(4, 9)) == 0);
    assert(p.subrange(3, 9).drop_first() =~= p.subrange(4, 9));
    assert(plan_ok(d, false, 3, 9, 1, 1, 0, 0, p.subrange(3, 9)));
    assert(plan_cost(d, 3, 1, 1, p.subrange(3, 9)) == 0);
    assert(p.subrange(2, 9).drop_first() =~= p.subrange(3, 9));
    assert(plan_ok(d, false, 2, 9, 1, 0, 1, 1, p.subrange(2, 9)));
    assert(plan_cost(d, 2, 1, 0, p.subrange(2, 9)) == 0);
    assert(p.subrange(1, 9).drop_first() =~= p.subrange(2, 9));
    assert(plan_ok(d, false, 1, 9, 1, 1, 2, 1, p.subrange(1, 9)));
    assert(plan_cost(d, 1, 1, 1, p.subrange(1, 9)) == 0);
    assert(p.subrange(0, 9).drop_first() =~= p.subrange(1, 9));
    assert(plan_ok(d, false, 0, 9, 0, 0, 4, 1, p.subrange(0, 9)));
    assert(plan_cost(d, 0, 0, 0, p.subrange(0, 9)) == 0);
    assert(p.subrange(0, 9) =~= p);
}

/// Both suits past the table are four melds and a pair as they stand.
proof fn lemma_past_suit_complete(d: Seq<u8>)
    requires
        d == seq![4u8, 4, 4, 2, 0, 0, 0, 0, 0] || d == seq![4u8, 4, 4, 1, 1, 0, 0, 0, 0],
    ensures
        min_dist(d, false, 0, 9, 0, 0, 4, 1) == 0,
{
    lemma_dist_range(d, false, 0, 9, 0, 0, 4, 1);
    if d == seq![4u8, 4, 4, 2, 0, 0, 0, 0, 0] {
        lemma_plan_a(d);
        lemma_min_dist_lower_bound(d, false, 0, 9, 0, 0, 4, 1, plan_a());
    } else {
        lemma_plan_b(d);
        lemma_min_dist_lower_bound(d, false, 0, 9, 0, 0, 4, 1, plan_b());
    }
}

/// Four melds and a pair over four groups come to nothing when one group
/// holds them all at no cost and the others cost nothing empty.
proof fn lemma_combine_zero(e: Seq<Seq<int>>, g: int)
    requires
        e.len() == 4,
        0 <= g < 4,
        forall|x: int, i: int| 0 <= x < 4 && 0 <= i < 10 ==> 0 <= #[trigger] e[x][i],
        e[g][9] == 0,
        forall|x: int| 0 <= x < 4 && x != g ==> #[trigger] e[x][0] == 0,
    ensures
        combine(e[0], e[1], e[2], e[3], 4) == 0,
{
    let ks = Seq::new(4, |i: int| if i == g { 4int } else { 0int });
    let ps = Seq::new(4, |i: int| if i == g { 1int } else { 0int });
    assert(split_ok(4, ks, ps));
    assert(e[0][0] >= 0 && e[1][0] >= 0);
    lemma_combine_le(e[0], e[1], e[2], e[3], 4, ks, ps);
    assert(split_sum(e[0], e[1], e[2], e[3], ks, ps) == 0) by {
        assert(e[g][ks[g] + 5 * ps[g]] == 0);
    }
    let (ks2, ps2) = combine_split(e[0], e[1], e[2], e[3], 4);
    assert(0 <= ks2[0] + 5 * ps2[0] < 10);
    assert(0 <= ks2[1] + 5 * ps2[1] < 10);
    assert(0 <= ks2[2] + 5 * ps2[2] < 10);
    assert(0 <= ks2[3] + 5 * ps2[3] < 10);
    assert(e[0][ks2[0] + 5 * ps2[0]] >= 0);
    assert(e[1][ks2[1] + 5 * ps2[1]] >= 0);
    assert(e[2][ks2[2] + 5 * ps2[2]] >= 0);
    assert(e[3][ks2[3] + 5 * ps2[3]] >= 0);
}

/// On every hand that `calc_normal` and `calc_all` admit, the lookup
/// tables give the regular-hand distance itself.
#[verifier::spinoff_prover]
#[verifier::rlimit(30)]
pub proof fn lemma_admitted_table(h: Seq<u8>, m: int)
    requires
        h.len() == 34,
        0 <= m <= 4,
        forall|i: int| 0 <= i < 34 ==> h[i] <= 4,
        hand_size(h) == 3 * m + 1 || hand_size(h) == 3 * m + 2,
    ensures
        table_distance(h, m) == normal_distance(h, m),
{
    if hand_size(h) <= 13 {
        lemma_small_hands_table(h, m);
    } else if table_covers(h) {
        lemma_covered_table(h, m);
    } else {
        assert(m == 4);
        lemma_group_size(h);
        lemma_seg_nonneg(group(h, 0), 0, 9);
        lemma_seg_nonneg(group(h, 1), 0, 9);
        lemma_seg_nonneg(group(h, 2), 0, 9);
        lemma_seg_nonneg(group(h, 3), 0, 7);
        assert forall|x: int, i: int| 0 <= x < 4 && 0 <= i < group(h, x).len() implies #[trigger] group(
            h,
            x,
        )[i] <= 4 by {
            assert(group(h, x)[i] == h[9 * x + i]);
        }
        lemma_honors_covered(group(h, 3));
        let g = if base5(group(h, 0)) >= SUHAI_TABLE_SIZE {
            0int
        } else if base5(group(h, 1)) >= SUHAI_TABLE_SIZE {
            1int
        } else {
            2int
        };
        assert(base5(group(h, g)) >= SUHAI_TABLE_SIZE);
        lemma_past_suit_table(group(h, g));
        lemma_past_suit_complete(group(h, g));
        assert(seg_sum(group(h, g), 0, 9) == 14) by {
            reveal_with_fuel(seg_sum, 10);
        }
        // The other groups are empty.
        assert forall|x: int| 0 <= x < 4 && x != g implies #[trigger] group(h, x) == Seq::new(
            super::group_len(x) as nat,
            |i: int| 0u8,
        ) by {
            let d = group(h, x);
            assert(seg_sum(d, 0, d.len() as int) == 0);
            lemma_zero_tail(d, 0);
            assert(d =~= Seq::new(super::group_len(x) as nat, |i: int| 0u8));
        }
        lemma_entries(h, 4);
        // The tables: zeros past the end, the group minima elsewhere.
        let te = seq![group_table_entry(h, 0), group_table_entry(h, 1), group_table_entry(h, 2), group_table_entry(h, 3)];
        assert forall|x: int| 0 <= x < 4 && x != g implies #[trigger] te[x] == entry_of(h, x) by {
            let d = group(h, x);
            lemma_digits5_base5(d);
            assert(base5(d) == 0) by {
                lemma_base5_zero(d);
            }
        }
        assert(te[g] =~= Seq::new(10, |i: int| 0int));
        lemma_combine_zero(te, g);
        let ne = seq![entry_of(h, 0), entry_of(h, 1), entry_of(h, 2), entry_of(h, 3)];
        assert(ne[g][9] == 0);
        lemma_combine_zero(ne, g);
    }
}

proof fn lemma_base5_zero(d: Seq<u8>)
    requires
        forall|i: int| 0 <= i < d.len() ==> #[trigger] d[i] == 0,
    ensures
        base5(d) == 0,
    decreases d.len(),
{
    if d.len() > 0 {
        lemma_base5_zero(d.drop_last());
    }
}

proof fn lemma_seg_update(h: Seq<u8>, i: int, v: u8, x: int, n: int)
    requires
        0 <= i < h.len(),
        0 <= x,
        n <= h.len(),
    ensures
        seg_sum(h.update(i, v), x, n) == seg_sum(h, x, n) + if x <= i < n { v - h[i] } else { 0 },
    decreases n - x,
{
    if x < n {
        lemma_seg_update(h, i, v, x + 1, n);
    }
}

proof fn lemma_seg_reverse(d: Seq<u8>)
    ensures
        seg_sum(d.reverse(), 0, d.len() as int) == seg_sum(d, 0, d.len() as int),
    decreases d.len(),
{
    let n = d.len() as int;
    if n > 0 {
        let tail = d.subrange(1, n);
        lemma_seg_reverse(tail);
        let r = d.reverse();
        super::draw::lemma_seg_split(r, 0, n - 1, n);
        assert(seg_sum(r, n - 1, n) == d[0]) by {
            assert(seg_sum(r, n, n) == 0);
        }
        assert(r.subrange(0, n - 1) =~= tail.reverse());
        super::draw::lemma_seg_sub(r, 0, n - 1, 0);
        super::draw::lemma_seg_sub(d, 1, n, 0);
    }
}

/// Exchanging two counts keeps the hand's size and its bound of four.
proof fn lemma_swap_size(h: Seq<u8>, a: int, b: int)
    requires
        h.len() == 34,
        0 <= a < 34,
        0 <= b < 34,
    ensures
        hand_size(swap_tiles(h, a, b)) == hand_size(h),
        (forall|i: int| 0 <= i < 34 ==> h[i] <= 4) ==> forall|i: int| 0 <= i < 34 ==> #[trigger] swap_tiles(h, a, b)[i] <= 4,
{
    let h1 = h.update(a, h[b]);
    lemma_seg_update(h, a, h[b], 0, 34);
    lemma_seg_update(h1, b, h[a], 0, 34);
}

/// Reading a suit backwards keeps the hand's size and its bound of four.
proof fn lemma_reverse_size(h: Seq<u8>, x: int)
    requires
        h.len() == 34,
        0 <= x < 3,
    ensures
        hand_size(reverse_suit(h, x)) == hand_size(h),
        (forall|i: int| 0 <= i < 34 ==> h[i] <= 4) ==> forall|i: int| 0 <= i < 34 ==> #[trigger] reverse_suit(h, x)[i] <= 4,
{
    let h2 = reverse_suit(h, x);
    assert(group(h2, x) =~= group(h, x).reverse());
    assert forall|g: int| 0 <= g < 4 && g != x implies #[trigger] group(h2, g) == group(h, g) by {
        assert(group(h2, g) =~= group(h, g));
    }
    lemma_seg_reverse(group(h, x));
    super::draw::lemma_group_size(h);
    super::draw::lemma_group_size(h2);
}

/// What `calc_all` reports (from the tables, its `ensures`): drawing a
/// tile never raises it and lowers it by at most one, for a hand of
/// `3m + 1` tiles, at most 4 of a kind, and a kind held at most 3 times.
pub proof fn lemma_draw_calc_all(h: Seq<u8>, m: int, i: int)
    requires
        h.len() == 34,
        0 <= m <= 4,
        forall|j: int| 0 <= j < 34 ==> h[j] <= 4,
        hand_size(h) == 3 * m + 1,
        0 <= i < 34,
        h[i] <= 3,
    ensures
        ({
            let s1 = all_shanten(h, m, table_distance(h, m) - 1);
            let s2 = all_shanten(drawn(h, i), m, table_distance(drawn(h, i), m) - 1);
            s2 == s1 || s2 == s1 - 1
        }),
{
    let h2 = drawn(h, i);
    lemma_seg_update(h, i, (h[i] + 1) as u8, 0, 34);
    assert forall|j: int| 0 <= j < 34 implies h2[j] <= 4 by {}
    lemma_admitted_table(h, m);
    lemma_admitted_table(h2, m);
    super::draw::lemma_draw_shanten(h, m, i);
}

/// What `calc_all` reports is the plain minimum of what `calc_normal`,
/// `calc_chitoi` and `calc_kokushi` report (only `calc_normal`'s below four
/// melds), on every admitted hand of `3m + 1` tiles, and on every admitted
/// hand of `3m + 2` tiles except one that `calc_normal` reports one tile
/// from the regular form while it is complete as seven pairs.
pub proof fn lemma_calc_all_is_min(h: Seq<u8>, m: int)
    requires
        h.len() == 34,
        0 <= m <= 4,
        forall|j: int| 0 <= j < 34 ==> h[j] <= 4,
        hand_size(h) == 3 * m + 1 || (hand_size(h) == 3 * m + 2 && !(table_distance(h, m) == 1
            && chitoi_shanten(h) == -1)),
    ensures
        all_shanten(h, m, table_distance(h, m) - 1) == if m < 4 {
            table_distance(h, m) - 1
        } else {
            min2(min2(table_distance(h, m) - 1, chitoi_shanten(h)), kokushi_shanten(h))
        },
{
    lemma_admitted_table(h, m);
    if hand_size(h) == 3 * m + 1 {
        super::draw::lemma_all_shanten_is_min(h, m);
    } else if table_distance(h, m) != 1 {
        super::draw::lemma_all_shanten_is_min_unless_tenpai(h, m);
    } else if m == 4 {
        super::draw::lemma_kinds_size(h, 34);
        super::lemma_kinds_with_range(h, 34, 1);
        super::lemma_kinds_with_range(h, 34, 2);
        super::lemma_ids_with_range(h, super::yaochu_ids(), 13, 1);
        if kokushi_shanten(h) == -1 {
            super::orphans::lemma_kokushi_far_from_regular(h);
        }
    }
}

/// What `calc_normal` reports is the same after reading suit `x` backwards
/// or exchanging honors `a` and `b`, on every admitted hand (at most 4 of a
/// kind, `3m + 1` or `3m + 2` tiles).
pub proof fn lemma_calc_normal_symmetric(h: Seq<u8>, m: int, x: int, a: int, b: int)
    requires
        h.len() == 34,
        0 <= m <= 4,
        forall|i: int| 0 <= i < 34 ==> h[i] <= 4,
        hand_size(h) == 3 * m + 1 || hand_size(h) == 3 * m + 2,
        0 <= x < 3,
        27 <= a < 34,
        27 <= b < 34,
    ensures
        table_distance(reverse_suit(h, x), m) == table_distance(h, m),
        table_distance(swap_tiles(h, a, b), m) == table_distance(h, m),
{
    lemma_admitted_table(h, m);
    lemma_reverse_size(h, x);
    lemma_swap_size(h, a, b);
    lemma_admitted_table(reverse_suit(h, x), m);
    lemma_admitted_table(swap_tiles(h, a, b), m);
    super::reversal::lemma_reverse_suit_distance(h, x, m);
    super::honors::lemma_swap_honors_distance(h, a, b, m);
}

} // verus!
