//! Honors only form triplets and pairs, so their order does not matter:
//! exchanging the counts of two honors leaves the regular-hand distance
//! unchanged.

use super::{
    group, group_entry, lemma_dist_range, lemma_min_dist_attained, lemma_min_dist_lower_bound, min_dist,
    normal_distance, plan_cost, plan_ok, Choice, INF,
};
use vstd::prelude::*;

verus! {

/// `s` with the elements at `x` and `y` exchanged.
pub open spec fn swap_at<A>(s: Seq<A>, x: int, y: int) -> Seq<A> {
    s.update(x, s[y]).update(y, s[x])
}

/// The sum of `s`.
pub open spec fn sum_of(s: Seq<int>) -> int
    decreases s.len(),
{
    if s.len() == 0 {
        0
    } else {
        s[0] + sum_of(s.drop_first())
    }
}

pub(crate) proof fn lemma_sum_of_concat(a: Seq<int>, b: Seq<int>)
    ensures
        sum_of(a + b) == sum_of(a) + sum_of(b),
    decreases a.len(),
{
    if a.len() == 0 {
        assert(a + b =~= b);
    } else {
        assert((a + b).drop_first() =~= a.drop_first() + b);
        lemma_sum_of_concat(a.drop_first(), b);
    }
}

pub(crate) proof fn lemma_sum_of_nonneg(s: Seq<int>)
    requires
        forall|j: int| 0 <= j < s.len() ==> 0 <= #[trigger] s[j],
    ensures
        sum_of(s) >= 0,
    decreases s.len(),
{
    if s.len() > 0 {
        assert forall|j: int| 0 <= j < s.drop_first().len() implies 0 <= #[trigger] s.drop_first()[j] by {
            assert(s.drop_first()[j] == s[j + 1]);
        }
        lemma_sum_of_nonneg(s.drop_first());
    }
}

pub(crate) proof fn lemma_sum_of_one(v: int)
    ensures
        sum_of(seq![v]) == v,
{
    assert(seq![v].drop_first() =~= Seq::<int>::empty());
    assert(sum_of(Seq::<int>::empty()) == 0);
}

/// Exchanging two elements keeps the sum.
proof fn lemma_sum_of_swap(s: Seq<int>, x: int, y: int)
    requires
        0 <= x < s.len(),
        0 <= y < s.len(),
    ensures
        sum_of(swap_at(s, x, y)) == sum_of(s),
{
    if x != y {
        let (lo, hi) = if x < y { (x, y) } else { (y, x) };
        let a = s.subrange(0, lo);
        let b = s.subrange(lo + 1, hi);
        let c = s.subrange(hi + 1, s.len() as int);
        assert(s =~= a + seq![s[lo]] + b + seq![s[hi]] + c);
        assert(swap_at(s, x, y) =~= a + seq![s[hi]] + b + seq![s[lo]] + c);
        lemma_sum_of_concat(a + seq![s[lo]] + b + seq![s[hi]], c);
        lemma_sum_of_concat(a + seq![s[lo]] + b, seq![s[hi]]);
        lemma_sum_of_concat(a + seq![s[lo]], b);
        lemma_sum_of_concat(a, seq![s[lo]]);
        lemma_sum_of_concat(a + seq![s[hi]] + b + seq![s[lo]], c);
        lemma_sum_of_concat(a + seq![s[hi]] + b, seq![s[lo]]);
        lemma_sum_of_concat(a + seq![s[hi]], b);
        lemma_sum_of_concat(a, seq![s[hi]]);
        lemma_sum_of_one(s[lo]);
        lemma_sum_of_one(s[hi]);
    } else {
        assert(swap_at(s, x, y) =~= s);
    }
}

/// A choice an honor can take: at most one triplet and one pair, and no
/// sequence.
pub open spec fn honor_choice(c: Choice) -> bool {
    &&& 0 <= c.0 <= 1
    &&& 0 <= c.1 <= 1
    &&& c.2 == 0
    &&& 3 * c.0 + 2 * c.1 <= 4
}

pub(crate) open spec fn triplets(plan: Seq<Choice>) -> Seq<int> {
    plan.map_values(|c: Choice| c.0)
}

pub(crate) open spec fn pairs(plan: Seq<Choice>) -> Seq<int> {
    plan.map_values(|c: Choice| c.1)
}

/// What one honor choice needs brought in, with `have` tiles at hand.
pub(crate) open spec fn honor_term(c: Choice, have: int) -> int {
    let w = 3 * c.0 + 2 * c.1;
    if w > have { w - have } else { 0 }
}

pub(crate) open spec fn honor_terms(d: Seq<u8>, pos: int, plan: Seq<Choice>) -> Seq<int> {
    Seq::new(plan.len(), |j: int| honor_term(plan[j], d[pos + j] as int))
}

/// A decomposition of honors is a choice per honor, with the triplets and
/// pairs adding up.
pub(crate) proof fn lemma_honor_plan(d: Seq<u8>, pos: int, end: int, k: int, p: int, plan: Seq<Choice>)
    requires
        pos <= end,
        plan_ok(d, true, pos, end, 0, 0, k, p, plan),
    ensures
        plan.len() == end - pos,
        forall|j: int| 0 <= j < plan.len() ==> honor_choice(#[trigger] plan[j]),
        sum_of(triplets(plan)) == k,
        sum_of(pairs(plan)) == p,
    decreases plan.len(),
{
    if plan.len() > 0 {
        let (t, q, s) = plan[0];
        let rest = plan.drop_first();
        lemma_honor_plan(d, pos + 1, end, k - t, p - q, rest);
        assert forall|j: int| 0 <= j < plan.len() implies honor_choice(#[trigger] plan[j]) by {
            if j > 0 {
                assert(plan[j] == rest[j - 1]);
            }
        }
        assert(triplets(plan).drop_first() =~= triplets(rest));
        assert(pairs(plan).drop_first() =~= pairs(rest));
    }
}

pub(crate) proof fn lemma_honor_plan_ok(d: Seq<u8>, pos: int, end: int, k: int, p: int, plan: Seq<Choice>)
    requires
        0 <= pos,
        plan.len() == end - pos,
        forall|j: int| 0 <= j < plan.len() ==> honor_choice(#[trigger] plan[j]),
        sum_of(triplets(plan)) == k,
        sum_of(pairs(plan)) == p,
    ensures
        plan_ok(d, true, pos, end, 0, 0, k, p, plan),
        plan_cost(d, pos, 0, 0, plan) == sum_of(honor_terms(d, pos, plan)),
    decreases plan.len(),
{
    if plan.len() > 0 {
        let rest = plan.drop_first();
        assert(honor_choice(plan[0]));
        let (t, q, s) = plan[0];
        assert forall|j: int| 0 <= j < rest.len() implies honor_choice(#[trigger] rest[j]) by {
            assert(rest[j] == plan[j + 1]);
        }
        assert(triplets(plan).drop_first() =~= triplets(rest));
        assert(pairs(plan).drop_first() =~= pairs(rest));
        assert forall|j: int| 0 <= j < triplets(rest).len() implies 0 <= #[trigger] triplets(rest)[j] by {
            assert(honor_choice(rest[j]));
        }
        assert forall|j: int| 0 <= j < pairs(rest).len() implies 0 <= #[trigger] pairs(rest)[j] by {
            assert(honor_choice(rest[j]));
        }
        lemma_sum_of_nonneg(triplets(rest));
        lemma_sum_of_nonneg(pairs(rest));
        lemma_honor_plan_ok(d, pos + 1, end, k - t, p - q, rest);
        assert(honor_terms(d, pos, plan).drop_first() =~= honor_terms(d, pos + 1, rest));
    } else {
        assert(triplets(plan) =~= Seq::<int>::empty());
        assert(pairs(plan) =~= Seq::<int>::empty());
    }
}

/// Exchanging two honors does not lower the distance of the honor group.
proof fn lemma_honor_swap_le(d: Seq<u8>, x: int, y: int, k: int, p: int)
    requires
        d.len() == 7,
        0 <= x < 7,
        0 <= y < 7,
    ensures
        min_dist(swap_at(d, x, y), true, 0, 7, 0, 0, k, p) <= min_dist(d, true, 0, 7, 0, 0, k, p),
{
    let d2 = swap_at(d, x, y);
    lemma_dist_range(d2, true, 0, 7, 0, 0, k, p);
    if min_dist(d, true, 0, 7, 0, 0, k, p) < INF as int {
        lemma_min_dist_attained(d, true, 0, 7, 0, 0, k, p);
        let plan = choose|plan: Seq<Choice>|
            plan_ok(d, true, 0, 7, 0, 0, k, p, plan) && #[trigger] plan_cost(d, 0, 0, 0, plan) == min_dist(
                d,
                true,
                0,
                7,
                0,
                0,
                k,
                p,
            );
        lemma_honor_plan(d, 0, 7, k, p, plan);
        lemma_honor_plan_ok(d, 0, 7, k, p, plan);
        let plan2 = swap_at(plan, x, y);
        assert forall|j: int| 0 <= j < plan2.len() implies honor_choice(#[trigger] plan2[j]) by {
            if j == y {
            } else if j == x {
            } else {
                assert(plan2[j] == plan[j]);
            }
        }
        assert(triplets(plan2) =~= swap_at(triplets(plan), x, y));
        assert(pairs(plan2) =~= swap_at(pairs(plan), x, y));
        lemma_sum_of_swap(triplets(plan), x, y);
        lemma_sum_of_swap(pairs(plan), x, y);
        lemma_honor_plan_ok(d2, 0, 7, k, p, plan2);
        assert(honor_terms(d2, 0, plan2) =~= swap_at(honor_terms(d, 0, plan), x, y));
        lemma_sum_of_swap(honor_terms(d, 0, plan), x, y);
        lemma_min_dist_lower_bound(d2, true, 0, 7, 0, 0, k, p, plan2);
    }
}

/// `h` with the counts of tiles `x` and `y` exchanged.
pub open spec fn swap_tiles(h: Seq<u8>, x: int, y: int) -> Seq<u8> {
    swap_at(h, x, y)
}

/// Exchanging the counts of two honors leaves the regular-hand distance
/// unchanged.
pub proof fn lemma_swap_honors_distance(h: Seq<u8>, x: int, y: int, m: int)
    requires
        h.len() == 34,
        27 <= x < 34,
        27 <= y < 34,
    ensures
        normal_distance(swap_tiles(h, x, y), m) == normal_distance(h, m),
{
    let h2 = swap_tiles(h, x, y);
    let d = group(h, 3);
    let d2 = group(h2, 3);
    assert(d2 =~= swap_at(d, x - 27, y - 27));
    assert(swap_at(d2, x - 27, y - 27) =~= d);
    assert(group(h2, 0) =~= group(h, 0));
    assert(group(h2, 1) =~= group(h, 1));
    assert(group(h2, 2) =~= group(h, 2));
    assert forall|i: int| 0 <= i < 10 implies #[trigger] group_entry(d2, true)[i] == group_entry(d, true)[i] by {
        let (k, p) = if i < 5 { (i, 0int) } else { (i - 5, 1int) };
        lemma_honor_swap_le(d, x - 27, y - 27, k, p);
        lemma_honor_swap_le(d2, x - 27, y - 27, k, p);
    }
    assert(group_entry(d2, true) =~= group_entry(d, true));
}

} // verus!
