//! Drawing a tile never raises the shanten number, and lowers it by at
//! most one.

use super::{
    all_shanten, chitoi_shanten, group, group_len, hand_plan_cost, hand_plan_ok, ids_with, kinds_with,
    kokushi_shanten, lemma_normal_distance_attained, lemma_normal_distance_lower_bound, normal_distance, plan_cost,
    plan_ok, yaochu_ids, Choice,
};
use vstd::prelude::*;

verus! {

/// The number of tiles in positions `pos..end` of `h`.
pub open spec fn seg_sum(h: Seq<u8>, pos: int, end: int) -> int
    decreases end - pos,
{
    if pos >= end {
        0
    } else {
        h[pos] + seg_sum(h, pos + 1, end)
    }
}

/// The number of tiles of a hand given by its 34 counts.
pub open spec fn hand_size(h: Seq<u8>) -> int {
    seg_sum(h, 0, 34)
}

/// `h` with one more tile of kind `i`.
pub open spec fn drawn(h: Seq<u8>, i: int) -> Seq<u8> {
    h.update(i, (h[i] + 1) as u8)
}

proof fn lemma_plan_ok_any(
    h: Seq<u8>,
    h2: Seq<u8>,
    honor: bool,
    pos: int,
    end: int,
    a: int,
    b: int,
    k: int,
    p: int,
    plan: Seq<Choice>,
)
    requires
        plan_ok(h, honor, pos, end, a, b, k, p, plan),
    ensures
        plan_ok(h2, honor, pos, end, a, b, k, p, plan),
    decreases plan.len(),
{
    if plan.len() > 0 {
        let (t, q, s) = plan[0];
        lemma_plan_ok_any(h, h2, honor, pos + 1, end, b + s, s, k - t - s, p - q, plan.drop_first());
    }
}

/// One more tile at `i` saves at most one tile of any decomposition, and
/// only if `i` lies ahead.
proof fn lemma_plan_cost_draw(
    h: Seq<u8>,
    i: int,
    honor: bool,
    pos: int,
    end: int,
    a: int,
    b: int,
    k: int,
    p: int,
    plan: Seq<Choice>,
)
    requires
        plan_ok(h, honor, pos, end, a, b, k, p, plan),
        end <= h.len(),
        0 <= i < h.len(),
        h[i] < 255,
    ensures
        plan_cost(drawn(h, i), pos, a, b, plan) <= plan_cost(h, pos, a, b, plan),
        plan_cost(h, pos, a, b, plan) <= plan_cost(drawn(h, i), pos, a, b, plan) + if pos <= i {
            1int
        } else {
            0int
        },
    decreases plan.len(),
{
    if plan.len() > 0 {
        let (t, q, s) = plan[0];
        lemma_plan_cost_draw(h, i, honor, pos + 1, end, b + s, s, k - t - s, p - q, plan.drop_first());
        assert(drawn(h, i)[pos] == if pos == i { h[pos] + 1 } else { h[pos] as int });
    }
}

/// A decomposition needs at least the tiles it uses minus those at hand.
proof fn lemma_plan_cost_lb(
    h: Seq<u8>,
    honor: bool,
    pos: int,
    end: int,
    a: int,
    b: int,
    k: int,
    p: int,
    plan: Seq<Choice>,
)
    requires
        plan_ok(h, honor, pos, end, a, b, k, p, plan),
        end <= h.len(),
    ensures
        plan_cost(h, pos, a, b, plan) >= a + b + 3 * k + 2 * p - seg_sum(h, pos, end),
    decreases plan.len(),
{
    if plan.len() > 0 {
        let (t, q, s) = plan[0];
        lemma_plan_cost_lb(h, honor, pos + 1, end, b + s, s, k - t - s, p - q, plan.drop_first());
    }
}

pub(crate) proof fn lemma_seg_split(h: Seq<u8>, x: int, y: int, z: int)
    requires
        x <= y <= z,
    ensures
        seg_sum(h, x, z) == seg_sum(h, x, y) + seg_sum(h, y, z),
    decreases y - x,
{
    if x < y {
        lemma_seg_split(h, x + 1, y, z);
    }
}

pub(crate) proof fn lemma_seg_nonneg(h: Seq<u8>, x: int, y: int)
    ensures
        seg_sum(h, x, y) >= 0,
    decreases y - x,
{
    if x < y {
        lemma_seg_nonneg(h, x + 1, y);
    }
}

pub(crate) proof fn lemma_seg_sub(h: Seq<u8>, x: int, y: int, j: int)
    requires
        0 <= x <= y <= h.len(),
        0 <= j <= y - x,
    ensures
        seg_sum(h.subrange(x, y), j, y - x) == seg_sum(h, x + j, y),
    decreases y - x - j,
{
    if j < y - x {
        lemma_seg_sub(h, x, y, j + 1);
    }
}

pub(crate) proof fn lemma_group_size(h: Seq<u8>)
    requires
        h.len() == 34,
    ensures
        seg_sum(group(h, 0), 0, 9) + seg_sum(group(h, 1), 0, 9) + seg_sum(group(h, 2), 0, 9) + seg_sum(
            group(h, 3),
            0,
            7,
        ) == hand_size(h),
{
    lemma_seg_sub(h, 0, 9, 0);
    lemma_seg_sub(h, 9, 18, 0);
    lemma_seg_sub(h, 18, 27, 0);
    lemma_seg_sub(h, 27, 34, 0);
    lemma_seg_split(h, 0, 9, 34);
    lemma_seg_split(h, 9, 18, 34);
    lemma_seg_split(h, 18, 27, 34);
}

/// Group `g` of a hand with one more tile at `i`.
proof fn lemma_group_drawn(h: Seq<u8>, i: int, g: int)
    requires
        h.len() == 34,
        0 <= i < 34,
        0 <= g < 4,
    ensures
        group(drawn(h, i), g) == if 9 * g <= i < 9 * g + group_len(g) {
            drawn(group(h, g), i - 9 * g)
        } else {
            group(h, g)
        },
{
    if 9 * g <= i < 9 * g + group_len(g) {
        assert(group(drawn(h, i), g) =~= drawn(group(h, g), i - 9 * g));
    } else {
        assert(group(drawn(h, i), g) =~= group(h, g));
    }
}

proof fn lemma_hand_plan_draw(h: Seq<u8>, i: int, m: int, ks: Seq<int>, ps: Seq<int>, plans: Seq<Seq<Choice>>)
    requires
        hand_plan_ok(h, m, ks, ps, plans),
        0 <= i < 34,
        h[i] < 255,
    ensures
        hand_plan_ok(drawn(h, i), m, ks, ps, plans),
        hand_plan_cost(drawn(h, i), plans) <= hand_plan_cost(h, plans) <= hand_plan_cost(drawn(h, i), plans) + 1,
{
    let h2 = drawn(h, i);
    assert(h2.len() == 34);
    assert forall|g: int| 0 <= g < 4 implies 0 <= ks[g] && 0 <= ps[g] <= 1 && plan_ok(
        group(h2, g),
        g == 3,
        0,
        group_len(g),
        0,
        0,
        ks[g],
        ps[g],
        #[trigger] plans[g],
    ) by {
        lemma_plan_ok_any(group(h, g), group(h2, g), g == 3, 0, group_len(g), 0, 0, ks[g], ps[g], plans[g]);
    }
    assert forall|g: int| 0 <= g < 4 implies 0 <= #[trigger] ks[g] && 0 <= ps[g] <= 1 by {
        assert(plan_ok(group(h, g), g == 3, 0, group_len(g), 0, 0, ks[g], ps[g], plans[g]));
    }
    assert(hand_plan_ok(h2, m, ks, ps, plans));
    let gi = if i < 27 { i / 9 } else { 3 };
    assert forall|g: int| 0 <= g < 4 implies plan_cost(group(h2, g), 0, 0, 0, #[trigger] plans[g]) <= plan_cost(
        group(h, g),
        0,
        0,
        0,
        plans[g],
    ) <= plan_cost(group(h2, g), 0, 0, 0, plans[g]) + if g == gi {
        1int
    } else {
        0int
    } by {
        lemma_group_drawn(h, i, g);
        assert(plan_ok(group(h, g), g == 3, 0, group_len(g), 0, 0, ks[g], ps[g], plans[g]));
        if 9 * g <= i < 9 * g + group_len(g) {
            lemma_plan_cost_draw(group(h, g), i - 9 * g, g == 3, 0, group_len(g), 0, 0, ks[g], ps[g], plans[g]);
        }
    }
    let c0 = plan_cost(group(h, 0), 0, 0, 0, plans[0]);
    let c1 = plan_cost(group(h, 1), 0, 0, 0, plans[1]);
    let c2 = plan_cost(group(h, 2), 0, 0, 0, plans[2]);
    let c3 = plan_cost(group(h, 3), 0, 0, 0, plans[3]);
    let d0 = plan_cost(group(h2, 0), 0, 0, 0, plans[0]);
    let d1 = plan_cost(group(h2, 1), 0, 0, 0, plans[1]);
    let d2 = plan_cost(group(h2, 2), 0, 0, 0, plans[2]);
    let d3 = plan_cost(group(h2, 3), 0, 0, 0, plans[3]);
    assert(d0 <= c0 && d1 <= c1 && d2 <= c2 && d3 <= c3);
    assert(c0 + c1 + c2 + c3 <= d0 + d1 + d2 + d3 + 1);
}

/// One more tile lowers the regular-hand distance by at most one, and
/// never raises it.
proof fn lemma_normal_draw(h: Seq<u8>, m: int, i: int)
    requires
        h.len() == 34,
        0 <= m <= 4,
        0 <= i < 34,
        h[i] < 255,
    ensures
        normal_distance(h, m) - 1 <= normal_distance(drawn(h, i), m) <= normal_distance(h, m),
{
    let h2 = drawn(h, i);
    lemma_normal_distance_attained(h, m);
    let (ks, ps, plans) = choose|ks: Seq<int>, ps: Seq<int>, plans: Seq<Seq<Choice>>|
        #[trigger] hand_plan_ok(h, m, ks, ps, plans) && hand_plan_cost(h, plans) == normal_distance(h, m);
    lemma_hand_plan_draw(h, i, m, ks, ps, plans);
    lemma_normal_distance_lower_bound(h2, m, ks, ps, plans);
    lemma_normal_distance_attained(h2, m);
    let (ks2, ps2, plans2) = choose|ks: Seq<int>, ps: Seq<int>, plans: Seq<Seq<Choice>>|
        #[trigger] hand_plan_ok(h2, m, ks, ps, plans) && hand_plan_cost(h2, plans) == normal_distance(h2, m);
    assert forall|g: int| 0 <= g < 4 implies 0 <= ks2[g] && 0 <= ps2[g] <= 1 && plan_ok(
        group(h, g),
        g == 3,
        0,
        group_len(g),
        0,
        0,
        ks2[g],
        ps2[g],
        #[trigger] plans2[g],
    ) by {
        lemma_plan_ok_any(group(h2, g), group(h, g), g == 3, 0, group_len(g), 0, 0, ks2[g], ps2[g], plans2[g]);
    }
    assert(hand_plan_ok(h, m, ks2, ps2, plans2));
    lemma_hand_plan_draw(h, i, m, ks2, ps2, plans2);
    lemma_normal_distance_lower_bound(h, m, ks2, ps2, plans2);
}

/// A hand of `3m + 1` tiles is at least one tile away from `m` melds and a
/// pair.
proof fn lemma_normal_short(h: Seq<u8>, m: int)
    requires
        h.len() == 34,
        0 <= m <= 4,
        hand_size(h) == 3 * m + 1,
    ensures
        normal_distance(h, m) >= 1,
{
    lemma_normal_distance_attained(h, m);
    let (ks, ps, plans) = choose|ks: Seq<int>, ps: Seq<int>, plans: Seq<Seq<Choice>>|
        #[trigger] hand_plan_ok(h, m, ks, ps, plans) && hand_plan_cost(h, plans) == normal_distance(h, m);
    assert forall|g: int| 0 <= g < 4 implies #[trigger] plan_cost(group(h, g), 0, 0, 0, plans[g]) >= 3 * ks[g] + 2
        * ps[g] - seg_sum(group(h, g), 0, group_len(g)) by {
        assert(plan_ok(group(h, g), g == 3, 0, group_len(g), 0, 0, ks[g], ps[g], plans[g]));
        lemma_plan_cost_lb(group(h, g), g == 3, 0, group_len(g), 0, 0, ks[g], ps[g], plans[g]);
    }
    assert(plan_cost(group(h, 0), 0, 0, 0, plans[0]) >= 3 * ks[0] + 2 * ps[0] - seg_sum(group(h, 0), 0, 9));
    assert(plan_cost(group(h, 1), 0, 0, 0, plans[1]) >= 3 * ks[1] + 2 * ps[1] - seg_sum(group(h, 1), 0, 9));
    assert(plan_cost(group(h, 2), 0, 0, 0, plans[2]) >= 3 * ks[2] + 2 * ps[2] - seg_sum(group(h, 2), 0, 9));
    assert(plan_cost(group(h, 3), 0, 0, 0, plans[3]) >= 3 * ks[3] + 2 * ps[3] - seg_sum(group(h, 3), 0, 7));
    lemma_group_size(h);
}

proof fn lemma_kinds_drawn(h: Seq<u8>, i: int, n: int, c: u8)
    requires
        0 <= i < h.len(),
        0 <= n <= h.len(),
        h[i] < 255,
    ensures
        kinds_with(drawn(h, i), n, c) == kinds_with(h, n, c) + if i < n && h[i] + 1 == c {
            1int
        } else {
            0int
        },
    decreases n,
{
    if n > 0 {
        lemma_kinds_drawn(h, i, n - 1, c);
    }
}

pub(crate) proof fn lemma_kinds_size(h: Seq<u8>, n: int)
    requires
        0 <= n <= h.len(),
    ensures
        kinds_with(h, n, 2) <= kinds_with(h, n, 1),
        2 * kinds_with(h, n, 2) <= seg_sum(h, 0, n),
        kinds_with(h, n, 1) + kinds_with(h, n, 2) <= seg_sum(h, 0, n),
    decreases n,
{
    if n > 0 {
        lemma_kinds_size(h, n - 1);
        lemma_seg_split(h, 0, n - 1, n);
        assert(seg_sum(h, n, n) == 0);
    }
}

/// How often `i` is among the first `n` of `ids`.
spec fn occurrences(ids: Seq<int>, n: int, i: int) -> int
    decreases n,
{
    if n <= 0 {
        0
    } else {
        occurrences(ids, n - 1, i) + if ids[n - 1] == i { 1int } else { 0int }
    }
}

proof fn lemma_ids_drawn(h: Seq<u8>, ids: Seq<int>, i: int, n: int, c: u8)
    requires
        0 <= i < h.len(),
        0 <= n <= ids.len(),
        forall|j: int| 0 <= j < n ==> 0 <= #[trigger] ids[j] < h.len(),
        h[i] < 255,
    ensures
        ids_with(drawn(h, i), ids, n, c) == ids_with(h, ids, n, c) + if h[i] + 1 == c {
            occurrences(ids, n, i)
        } else {
            0int
        },
    decreases n,
{
    if n > 0 {
        lemma_ids_drawn(h, ids, i, n - 1, c);
        assert(0 <= ids[n - 1] < h.len());
    }
}

/// The sum of the counts at the first `n` of `ids`.
spec fn ids_sum(h: Seq<u8>, ids: Seq<int>, n: int) -> int
    decreases n,
{
    if n <= 0 {
        0
    } else {
        ids_sum(h, ids, n - 1) + h[ids[n - 1]]
    }
}

proof fn lemma_ids_size(h: Seq<u8>, ids: Seq<int>, n: int)
    requires
        0 <= n,
    ensures
        ids_with(h, ids, n, 1) + ids_with(h, ids, n, 2) <= ids_sum(h, ids, n),
    decreases n,
{
    if n > 0 {
        lemma_ids_size(h, ids, n - 1);
    }
}

#[verifier::spinoff_prover]
proof fn lemma_yaochu(h: Seq<u8>, i: int)
    requires
        h.len() == 34,
        0 <= i < 34,
    ensures
        0 <= occurrences(yaochu_ids(), 13, i) <= 1,
        ids_sum(h, yaochu_ids(), 13) <= hand_size(h),
        forall|j: int| 0 <= j < 13 ==> 0 <= #[trigger] yaochu_ids()[j] < 34,
{
    let y = yaochu_ids();
    assert(0 <= occurrences(y, 13, i) <= 1) by {
        reveal_with_fuel(occurrences, 14);
    }
    assert(ids_sum(h, y, 13) == h[0] + h[8] + h[9] + h[17] + h[18] + h[26] + h[27] + h[28] + h[29] + h[30] + h[31]
        + h[32] + h[33]) by {
        reveal_with_fuel(ids_sum, 14);
    }
    assert(hand_size(h) >= h[0] + h[8] + h[9] + h[17] + h[18] + h[26] + h[27] + h[28] + h[29] + h[30] + h[31]
        + h[32] + h[33]) by {
        reveal_with_fuel(seg_sum, 35);
    }
}

/// One more tile lowers the seven-pairs number by at most one; a hand of
/// at most 13 tiles is not yet complete as seven pairs.
proof fn lemma_chitoi_draw(h: Seq<u8>, i: int)
    requires
        h.len() == 34,
        0 <= i < 34,
        h[i] <= 3,
    ensures
        chitoi_shanten(drawn(h, i)) == chitoi_shanten(h) || chitoi_shanten(drawn(h, i)) == chitoi_shanten(h) - 1,
        hand_size(h) <= 13 ==> chitoi_shanten(h) >= 0,
{
    lemma_kinds_drawn(h, i, 34, 1);
    lemma_kinds_drawn(h, i, 34, 2);
    lemma_kinds_size(h, 34);
}

/// One more tile lowers the thirteen-orphans number by at most one; a hand
/// of at most 13 tiles is not yet complete as thirteen orphans.
proof fn lemma_kokushi_draw(h: Seq<u8>, i: int)
    requires
        h.len() == 34,
        0 <= i < 34,
        h[i] <= 3,
    ensures
        kokushi_shanten(drawn(h, i)) == kokushi_shanten(h) || kokushi_shanten(drawn(h, i)) == kokushi_shanten(h)
            - 1,
        hand_size(h) <= 13 ==> kokushi_shanten(h) >= 0,
{
    lemma_yaochu(h, i);
    lemma_ids_drawn(h, yaochu_ids(), i, 13, 1);
    lemma_ids_drawn(h, yaochu_ids(), i, 13, 2);
    lemma_ids_size(h, yaochu_ids(), 13);
    super::lemma_ids_with_range(h, yaochu_ids(), 13, 1);
    super::lemma_ids_with_range(h, yaochu_ids(), 13, 2);
}

/// For a hand of `3m + 1` tiles, `calc_all`'s number is the plain minimum
/// over the three forms (the regular form alone below four melds): seven
/// pairs and thirteen orphans are never complete there, nor is the
/// regular form.
pub proof fn lemma_all_shanten_is_min(h: Seq<u8>, m: int)
    requires
        h.len() == 34,
        0 <= m <= 4,
        hand_size(h) == 3 * m + 1,
    ensures
        all_shanten(h, m, normal_distance(h, m) - 1) == if m < 4 {
            normal_distance(h, m) - 1
        } else {
            super::min2(super::min2(normal_distance(h, m) - 1, chitoi_shanten(h)), kokushi_shanten(h))
        },
{
    lemma_normal_short(h, m);
    lemma_kinds_size(h, 34);
    lemma_yaochu(h, 0);
    lemma_ids_size(h, yaochu_ids(), 13);
    super::lemma_ids_with_range(h, yaochu_ids(), 13, 1);
    super::lemma_ids_with_range(h, yaochu_ids(), 13, 2);
}

/// Every terminal or honor kind held is a kind held.
#[verifier::spinoff_prover]
#[verifier::rlimit(40)]
proof fn lemma_yaochu_kinds(h: Seq<u8>)
    requires
        h.len() == 34,
    ensures
        ids_with(h, yaochu_ids(), 13, 1) <= kinds_with(h, 34, 1),
{
    let y = yaochu_ids();
    let e = |v: u8| if v >= 1 { 1int } else { 0int };
    assert(ids_with(h, y, 13, 1) == e(h[0]) + e(h[8]) + e(h[9]) + e(h[17]) + e(h[18]) + e(h[26]) + e(h[27]) + e(
        h[28],
    ) + e(h[29]) + e(h[30]) + e(h[31]) + e(h[32]) + e(h[33])) by {
        reveal_with_fuel(ids_with, 14);
    }
    assert(kinds_with(h, 34, 1) >= e(h[0]) + e(h[8]) + e(h[9]) + e(h[17]) + e(h[18]) + e(h[26]) + e(h[27]) + e(
        h[28],
    ) + e(h[29]) + e(h[30]) + e(h[31]) + e(h[32]) + e(h[33])) by {
        reveal_with_fuel(kinds_with, 35);
    }
}

/// For a hand of `3m + 2` tiles whose regular form is not one tile from
/// complete, `calc_all`'s number is the plain minimum over the three forms
/// (the regular form alone below four melds).
pub proof fn lemma_all_shanten_is_min_unless_tenpai(h: Seq<u8>, m: int)
    requires
        h.len() == 34,
        0 <= m <= 4,
        hand_size(h) == 3 * m + 2,
        normal_distance(h, m) != 1,
    ensures
        all_shanten(h, m, normal_distance(h, m) - 1) == if m < 4 {
            normal_distance(h, m) - 1
        } else {
            super::min2(super::min2(normal_distance(h, m) - 1, chitoi_shanten(h)), kokushi_shanten(h))
        },
{
    super::lemma_normal_distance_attained(h, m);
    lemma_kinds_size(h, 34);
    lemma_yaochu_kinds(h);
    super::lemma_ids_with_range(h, yaochu_ids(), 13, 1);
    super::lemma_ids_with_range(h, yaochu_ids(), 13, 2);
    super::lemma_kinds_with_range(h, 34, 1);
    super::lemma_kinds_with_range(h, 34, 2);
}

/// Drawing a tile never raises the shanten number over the three hand
/// forms, as `calc_all` reports it, and lowers it by at most one: for a
/// hand of `3m + 1` tiles, at most 4 of a kind, and one more tile of a kind
/// it holds at most 3 of.
pub proof fn lemma_draw_shanten(h: Seq<u8>, m: int, i: int)
    requires
        h.len() == 34,
        0 <= m <= 4,
        forall|j: int| 0 <= j < 34 ==> h[j] <= 4,
        hand_size(h) == 3 * m + 1,
        0 <= i < 34,
        h[i] <= 3,
    ensures
        ({
            let s1 = all_shanten(h, m, normal_distance(h, m) - 1);
            let s2 = all_shanten(drawn(h, i), m, normal_distance(drawn(h, i), m) - 1);
            s2 == s1 || s2 == s1 - 1
        }),
{
    lemma_normal_draw(h, m, i);
    lemma_normal_short(h, m);
    lemma_chitoi_draw(h, i);
    lemma_kokushi_draw(h, i);
}

} // verus!
