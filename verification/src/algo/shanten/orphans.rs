//! A hand complete as thirteen orphans is far from the regular form: every
//! meld lacks at least one of its tiles, so it is at least four tiles from
//! four melds and a pair.

use super::draw::{hand_size, seg_sum};
use super::honors::{honor_terms, lemma_honor_plan, lemma_honor_plan_ok, sum_of, triplets};
use super::reversal::{lemma_suit_plan, melds, suit_choice, suit_terms, sv, used};
use super::{
    group, group_len, hand_plan_cost, hand_plan_ok, ids_with, kokushi_shanten, lemma_normal_distance_attained,
    normal_distance, plan_cost, plan_ok, yaochu_ids, Choice,
};
use vstd::prelude::*;

verus! {

/// A suit holding only its 1 and its 9, at most twice each, needs at least
/// one tile for each of its melds.
proof fn lemma_ends_only_suit(d: Seq<u8>, k: int, p: int, plan: Seq<Choice>)
    requires
        d.len() == 9,
        forall|j: int| 1 <= j < 8 ==> #[trigger] d[j] == 0,
        d[0] <= 2,
        d[8] <= 2,
        plan_ok(d, false, 0, 9, 0, 0, k, p, plan),
    ensures
        plan_cost(d, 0, 0, 0, plan) >= k,
{
    lemma_suit_plan(d, 0, 9, 0, 0, k, p, plan);
    let t = suit_terms(d, 0, plan, 0, 0);
    let ms = melds(plan);
    assert(sum_of(t) == t[0] + t[1] + t[2] + t[3] + t[4] + t[5] + t[6] + t[7] + t[8]) by {
        reveal_with_fuel(sum_of, 10);
    }
    assert(sum_of(ms) == ms[0] + ms[1] + ms[2] + ms[3] + ms[4] + ms[5] + ms[6] + ms[7] + ms[8]) by {
        reveal_with_fuel(sum_of, 10);
    }
    let tt = Seq::new(9, |j: int| plan[j].0);
    let ss = Seq::new(9, |j: int| plan[j].2);
    assert forall|j: int| 0 <= j < 9 implies #[trigger] sv(plan, j) == ss[j] && 0 <= tt[j] <= 1 && 0 <= ss[j]
        && ms[j] == tt[j] + ss[j] && t[j] >= 0 && t[j] >= used(plan, 0, 0, j) - d[j] && used(plan, 0, 0, j)
        >= 3 * tt[j] + ss[j] + (if j >= 1 { sv(plan, j - 1) } else { 0 }) + (if j >= 2 { sv(plan, j - 2) } else { 0 }) by {
        assert(suit_choice(plan, 0, 0, j));
    }
    assert(ss[7] == 0 && ss[8] == 0) by {
        assert(suit_choice(plan, 0, 0, 7));
        assert(suit_choice(plan, 0, 0, 8));
    }
    lemma_ends_arith(
        seq![t[0], t[1], t[2], t[3], t[4], t[5], t[6], t[7], t[8]],
        tt,
        ss,
        d[0] as int,
        d[8] as int,
    );
}

/// The arithmetic of the count above: each term covers the triplets and
/// the sequences that use its position.
proof fn lemma_ends_arith(c: Seq<int>, tt: Seq<int>, ss: Seq<int>, d0: int, d8: int)
    requires
        c.len() == 9 && tt.len() == 9 && ss.len() == 9,
        0 <= d0 <= 2,
        0 <= d8 <= 2,
        forall|j: int| 0 <= j < 9 ==> 0 <= #[trigger] tt[j] <= 1 && 0 <= ss[j] && c[j] >= 0,
        ss[7] == 0 && ss[8] == 0,
        c[0] >= 3 * tt[0] + ss[0] - d0,
        c[1] >= 3 * tt[1] + ss[1] + ss[0],
        c[2] >= 3 * tt[2] + ss[2] + ss[1] + ss[0],
        c[3] >= 3 * tt[3] + ss[3] + ss[2] + ss[1],
        c[4] >= 3 * tt[4] + ss[4] + ss[3] + ss[2],
        c[5] >= 3 * tt[5] + ss[5] + ss[4] + ss[3],
        c[6] >= 3 * tt[6] + ss[6] + ss[5] + ss[4],
        c[7] >= 3 * tt[7] + ss[7] + ss[6] + ss[5],
        c[8] >= 3 * tt[8] + ss[8] + ss[7] + ss[6] - d8,
    ensures
        c[0] + c[1] + c[2] + c[3] + c[4] + c[5] + c[6] + c[7] + c[8] >= tt[0] + ss[0] + tt[1] + ss[1] + tt[2] + ss[2]
            + tt[3] + ss[3] + tt[4] + ss[4] + tt[5] + ss[5] + tt[6] + ss[6] + tt[7] + ss[7] + tt[8] + ss[8],
{
    assert(0 <= tt[0] <= 1 && c[0] >= 0 && 0 <= tt[8] <= 1 && c[8] >= 0);
    assert(c[0] >= tt[0]);
    assert(c[8] >= tt[8]);
    assert(0 <= tt[1] && 0 <= tt[2] && 0 <= tt[3] && 0 <= tt[4] && 0 <= tt[5] && 0 <= tt[6] && 0 <= tt[7]);
}

/// Honors held at most twice each need at least one tile for each of
/// their melds.
proof fn lemma_pairs_only_honors(d: Seq<u8>, k: int, p: int, plan: Seq<Choice>)
    requires
        d.len() == 7,
        forall|j: int| 0 <= j < 7 ==> #[trigger] d[j] <= 2,
        plan_ok(d, true, 0, 7, 0, 0, k, p, plan),
    ensures
        plan_cost(d, 0, 0, 0, plan) >= k,
{
    lemma_honor_plan(d, 0, 7, k, p, plan);
    lemma_honor_plan_ok(d, 0, 7, k, p, plan);
    let t = honor_terms(d, 0, plan);
    let ts = triplets(plan);
    assert(sum_of(t) == t[0] + t[1] + t[2] + t[3] + t[4] + t[5] + t[6]) by {
        reveal_with_fuel(sum_of, 8);
    }
    assert(sum_of(ts) == ts[0] + ts[1] + ts[2] + ts[3] + ts[4] + ts[5] + ts[6]) by {
        reveal_with_fuel(sum_of, 8);
    }
    assert forall|j: int| 0 <= j < 7 implies #[trigger] t[j] >= ts[j] by {
        assert(super::honors::honor_choice(plan[j]));
    }
}

/// The counts of a hand of 14 tiles complete as thirteen orphans: every
/// terminal and honor once or twice, nothing else.
#[verifier::spinoff_prover]
#[verifier::rlimit(40)]
proof fn lemma_kokushi_counts(h: Seq<u8>)
    requires
        h.len() == 34,
        hand_size(h) == 14,
        kokushi_shanten(h) == -1,
    ensures
        forall|j: int| 0 <= j < 34 && !yaochu_ids().contains(j) ==> #[trigger] h[j] == 0,
        forall|j: int| 0 <= j < 34 ==> #[trigger] h[j] <= 2,
{
    let y = yaochu_ids();
    super::lemma_ids_with_range(h, y, 13, 1);
    let e1 = |v: u8| if v >= 1 { 1int } else { 0int };
    let e2 = |v: u8| if v >= 2 { 1int } else { 0int };
    assert(ids_with(h, y, 13, 1) == e1(h[0]) + e1(h[8]) + e1(h[9]) + e1(h[17]) + e1(h[18]) + e1(h[26]) + e1(h[27])
        + e1(h[28]) + e1(h[29]) + e1(h[30]) + e1(h[31]) + e1(h[32]) + e1(h[33])) by {
        reveal_with_fuel(ids_with, 14);
    }
    assert(ids_with(h, y, 13, 2) == e2(h[0]) + e2(h[8]) + e2(h[9]) + e2(h[17]) + e2(h[18]) + e2(h[26]) + e2(h[27])
        + e2(h[28]) + e2(h[29]) + e2(h[30]) + e2(h[31]) + e2(h[32]) + e2(h[33])) by {
        reveal_with_fuel(ids_with, 14);
    }
    assert(hand_size(h) == h[0] + h[1] + h[2] + h[3] + h[4] + h[5] + h[6] + h[7] + h[8] + h[9] + h[10] + h[11]
        + h[12] + h[13] + h[14] + h[15] + h[16] + h[17] + h[18] + h[19] + h[20] + h[21] + h[22] + h[23] + h[24]
        + h[25] + h[26] + h[27] + h[28] + h[29] + h[30] + h[31] + h[32] + h[33]) by {
        reveal_with_fuel(seg_sum, 35);
    }
    assert forall|j: int| 0 <= j < 34 && !y.contains(j) implies #[trigger] h[j] == 0 by {
        if h[j] != 0 {
            assert(y[0] == 0 && y[1] == 8 && y[2] == 9 && y[3] == 17 && y[4] == 18 && y[5] == 26);
            assert(j != 0 && j != 8 && j != 9 && j != 17 && j != 18 && j != 26 && j < 27) by {
                if j == 0 || j == 8 || j == 9 || j == 17 || j == 18 || j == 26 || j >= 27 {
                    let i = if j == 0 { 0int } else if j == 8 { 1 } else if j == 9 { 2 } else if j == 17 { 3 }
                        else if j == 18 { 4 } else if j == 26 { 5 } else { j - 21 };
                    assert(y[i] == j);
                }
            }
        }
    }
}

/// A hand of 14 tiles complete as thirteen orphans is at least four tiles
/// from four melds and a pair.
pub proof fn lemma_kokushi_far_from_regular(h: Seq<u8>)
    requires
        h.len() == 34,
        hand_size(h) == 14,
        kokushi_shanten(h) == -1,
    ensures
        normal_distance(h, 4) >= 4,
{
    lemma_kokushi_counts(h);
    let y = yaochu_ids();
    lemma_normal_distance_attained(h, 4);
    let (ks, ps, plans) = choose|ks: Seq<int>, ps: Seq<int>, plans: Seq<Seq<Choice>>|
        #[trigger] hand_plan_ok(h, 4, ks, ps, plans) && hand_plan_cost(h, plans) == normal_distance(h, 4);
    assert forall|g: int| 0 <= g < 3 implies #[trigger] plan_cost(group(h, g), 0, 0, 0, plans[g]) >= ks[g] by {
        let d = group(h, g);
        assert(plan_ok(d, false, 0, 9, 0, 0, ks[g], ps[g], plans[g]));
        assert forall|j: int| 1 <= j < 8 implies #[trigger] d[j] == 0 by {
            assert(d[j] == h[9 * g + j]);
            assert(!y.contains(9 * g + j)) by {
                if y.contains(9 * g + j) {
                    let i = choose|i: int| 0 <= i < y.len() && y[i] == 9 * g + j;
                    assert(y[i] == 9 * g + j);
                }
            }
        }
        assert(d[0] == h[9 * g] && d[8] == h[9 * g + 8]);
        lemma_ends_only_suit(d, ks[g], ps[g], plans[g]);
    }
    let dh = group(h, 3);
    assert(plan_ok(dh, true, 0, 7, 0, 0, ks[3], ps[3], plans[3]));
    assert forall|j: int| 0 <= j < 7 implies #[trigger] dh[j] <= 2 by {
        assert(dh[j] == h[27 + j]);
    }
    lemma_pairs_only_honors(dh, ks[3], ps[3], plans[3]);
    assert(plan_cost(group(h, 0), 0, 0, 0, plans[0]) >= ks[0]);
    assert(plan_cost(group(h, 1), 0, 0, 0, plans[1]) >= ks[1]);
    assert(plan_cost(group(h, 2), 0, 0, 0, plans[2]) >= ks[2]);
}

} // verus!
