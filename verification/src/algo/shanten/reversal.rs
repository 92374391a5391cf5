//! Sequences read the same both ways: reading a suit from nine down to one
//! leaves the regular-hand distance unchanged.

use super::{
    group, group_entry, lemma_dist_range, lemma_min_dist_attained, lemma_min_dist_lower_bound, min_dist,
    normal_distance, plan_cost, plan_ok, Choice, INF,
};
use super::honors::{sum_of, lemma_sum_of_concat, lemma_sum_of_nonneg, lemma_sum_of_one};
use vstd::prelude::*;

verus! {

/// The sequences started at position `j` of `plan`; none outside it.
pub(crate) open spec fn sv(plan: Seq<Choice>, j: int) -> int {
    if 0 <= j < plan.len() {
        plan[j].2
    } else {
        0
    }
}

/// The tiles that position `j` owes to sequences started before it, given
/// the `a` and `b` tiles owed to the first two positions from before the
/// plan.
pub(crate) open spec fn owed(plan: Seq<Choice>, a: int, b: int, j: int) -> int {
    if j == 0 {
        a
    } else if j == 1 {
        b + sv(plan, 0)
    } else {
        sv(plan, j - 2) + sv(plan, j - 1)
    }
}

/// The tiles that position `j` of `plan` uses.
pub(crate) open spec fn used(plan: Seq<Choice>, a: int, b: int, j: int) -> int {
    owed(plan, a, b, j) + 3 * plan[j].0 + 2 * plan[j].1 + plan[j].2
}

pub(crate) open spec fn suit_choice(plan: Seq<Choice>, a: int, b: int, j: int) -> bool {
    let c = plan[j];
    &&& 0 <= c.0 <= 1
    &&& 0 <= c.1 <= 1
    &&& 0 <= c.2 <= 4
    &&& used(plan, a, b, j) <= 4
    &&& (c.2 > 0 ==> j + 2 < plan.len())
}

/// No tile is owed past the end of the plan.
pub(crate) open spec fn closes(plan: Seq<Choice>, a: int, b: int) -> bool {
    &&& owed(plan, a, b, plan.len() as int) == 0
    &&& (if plan.len() == 0 { b } else { sv(plan, plan.len() - 1) }) == 0
}

pub(crate) open spec fn melds(plan: Seq<Choice>) -> Seq<int> {
    plan.map_values(|c: Choice| c.0 + c.2)
}

pub(crate) open spec fn pair_count(plan: Seq<Choice>) -> Seq<int> {
    plan.map_values(|c: Choice| c.1)
}

pub(crate) open spec fn suit_terms(d: Seq<u8>, pos: int, plan: Seq<Choice>, a: int, b: int) -> Seq<int> {
    Seq::new(
        plan.len(),
        |j: int|
            if used(plan, a, b, j) > d[pos + j] {
                used(plan, a, b, j) - d[pos + j]
            } else {
                0
            },
    )
}

/// The state after the first position, seen from the rest of the plan.
proof fn lemma_shift(plan: Seq<Choice>, a: int, b: int)
    requires
        plan.len() > 0,
    ensures
        ({
            let rest = plan.drop_first();
            let a2 = b + plan[0].2;
            let b2 = plan[0].2;
            &&& forall|j: int| 0 <= j ==> #[trigger] owed(rest, a2, b2, j) == owed(plan, a, b, j + 1)
            &&& forall|j: int| 0 <= j < rest.len() ==> #[trigger] used(rest, a2, b2, j) == used(plan, a, b, j + 1)
            &&& forall|j: int| 0 <= j < rest.len() ==> #[trigger] suit_choice(rest, a2, b2, j) == suit_choice(
                plan,
                a,
                b,
                j + 1,
            )
            &&& closes(rest, a2, b2) == closes(plan, a, b)
            &&& melds(plan).drop_first() == melds(rest)
            &&& pair_count(plan).drop_first() == pair_count(rest)
        }),
{
    let rest = plan.drop_first();
    assert forall|j: int| 0 <= j implies #[trigger] owed(rest, b + plan[0].2, plan[0].2, j) == owed(plan, a, b, j + 1) by {
        assert(forall|i: int| 0 <= i ==> #[trigger] sv(rest, i) == sv(plan, i + 1));
    }
    assert forall|j: int| 0 <= j < rest.len() implies #[trigger] used(rest, b + plan[0].2, plan[0].2, j) == used(
        plan,
        a,
        b,
        j + 1,
    ) by {
        assert(owed(rest, b + plan[0].2, plan[0].2, j) == owed(plan, a, b, j + 1));
        assert(rest[j] == plan[j + 1]);
    }
    assert(owed(rest, b + plan[0].2, plan[0].2, rest.len() as int) == owed(plan, a, b, plan.len() as int));
    if rest.len() > 0 {
        assert(sv(rest, rest.len() - 1) == sv(plan, plan.len() - 1));
    }
    assert(melds(plan).drop_first() =~= melds(rest));
    assert(pair_count(plan).drop_first() =~= pair_count(rest));
}

/// A decomposition of a suit is a choice per position, with the melds and
/// pairs adding up and nothing owed at the end; its cost is the sum over
/// the positions.
pub(crate) proof fn lemma_suit_plan(d: Seq<u8>, pos: int, end: int, a: int, b: int, k: int, p: int, plan: Seq<Choice>)
    requires
        pos <= end,
        plan_ok(d, false, pos, end, a, b, k, p, plan),
    ensures
        plan.len() == end - pos,
        forall|j: int| 0 <= j < plan.len() ==> #[trigger] suit_choice(plan, a, b, j),
        closes(plan, a, b),
        sum_of(melds(plan)) == k,
        sum_of(pair_count(plan)) == p,
        plan_cost(d, pos, a, b, plan) == sum_of(suit_terms(d, pos, plan, a, b)),
    decreases plan.len(),
{
    if plan.len() > 0 {
        let (t, q, s) = plan[0];
        let rest = plan.drop_first();
        lemma_suit_plan(d, pos + 1, end, b + s, s, k - t - s, p - q, rest);
        lemma_shift(plan, a, b);
        assert forall|j: int| 0 <= j < plan.len() implies #[trigger] suit_choice(plan, a, b, j) by {
            if j > 0 {
                assert(suit_choice(rest, b + s, s, j - 1));
            }
        }
        assert(suit_terms(d, pos, plan, a, b).drop_first() =~= suit_terms(d, pos + 1, rest, b + s, s));
    } else {
        assert(melds(plan) =~= Seq::<int>::empty());
        assert(pair_count(plan) =~= Seq::<int>::empty());
    }
}

proof fn lemma_suit_plan_ok(d: Seq<u8>, pos: int, end: int, a: int, b: int, k: int, p: int, plan: Seq<Choice>)
    requires
        0 <= pos,
        plan.len() == end - pos,
        forall|j: int| 0 <= j < plan.len() ==> #[trigger] suit_choice(plan, a, b, j),
        closes(plan, a, b),
        sum_of(melds(plan)) == k,
        sum_of(pair_count(plan)) == p,
    ensures
        plan_ok(d, false, pos, end, a, b, k, p, plan),
        plan_cost(d, pos, a, b, plan) == sum_of(suit_terms(d, pos, plan, a, b)),
    decreases plan.len(),
{
    if plan.len() > 0 {
        let (t, q, s) = plan[0];
        let rest = plan.drop_first();
        lemma_shift(plan, a, b);
        assert(suit_choice(plan, a, b, 0));
        assert forall|j: int| 0 <= j < rest.len() implies #[trigger] suit_choice(rest, b + s, s, j) by {
            assert(suit_choice(plan, a, b, j + 1));
        }
        assert forall|j: int| 0 <= j < melds(rest).len() implies 0 <= #[trigger] melds(rest)[j] by {
            assert(suit_choice(plan, a, b, j + 1));
        }
        assert forall|j: int| 0 <= j < pair_count(rest).len() implies 0 <= #[trigger] pair_count(rest)[j] by {
            assert(suit_choice(plan, a, b, j + 1));
        }
        lemma_sum_of_nonneg(melds(rest));
        lemma_sum_of_nonneg(pair_count(rest));
        lemma_suit_plan_ok(d, pos + 1, end, b + s, s, k - t - s, p - q, rest);
        assert(suit_terms(d, pos, plan, a, b).drop_first() =~= suit_terms(d, pos + 1, rest, b + s, s));
    } else {
        assert(melds(plan) =~= Seq::<int>::empty());
        assert(pair_count(plan) =~= Seq::<int>::empty());
    }
}

proof fn lemma_sum_of_reverse(s: Seq<int>)
    ensures
        sum_of(s.reverse()) == sum_of(s),
    decreases s.len(),
{
    if s.len() > 0 {
        let init = s.drop_last();
        assert(s.reverse().drop_first() =~= init.reverse());
        lemma_sum_of_reverse(init);
        assert(s =~= init + seq![s.last()]);
        lemma_sum_of_concat(init, seq![s.last()]);
        lemma_sum_of_one(s.last());
    }
}

/// The plan read backwards: each position takes the triplet and pair of
/// its mirror, and the sequence that ended at its mirror.
spec fn mirror(plan: Seq<Choice>) -> Seq<Choice> {
    Seq::new(plan.len(), |j: int| (plan[plan.len() - 1 - j].0, plan[plan.len() - 1 - j].1, sv(plan, plan.len() - 3 - j)))
}

proof fn lemma_mirror(d: Seq<u8>, plan: Seq<Choice>)
    requires
        plan.len() == d.len(),
        forall|j: int| 0 <= j < plan.len() ==> #[trigger] suit_choice(plan, 0, 0, j),
        closes(plan, 0, 0),
    ensures
        forall|j: int| 0 <= j < plan.len() ==> #[trigger] suit_choice(mirror(plan), 0, 0, j),
        closes(mirror(plan), 0, 0),
        sum_of(melds(mirror(plan))) == sum_of(melds(plan)),
        sum_of(pair_count(mirror(plan))) == sum_of(pair_count(plan)),
        suit_terms(d.reverse(), 0, mirror(plan), 0, 0) == suit_terms(d, 0, plan, 0, 0).reverse(),
{
    let n = plan.len() as int;
    let r = mirror(plan);
    assert forall|i: int| n - 2 <= i < n implies #[trigger] sv(plan, i) == 0 by {
        if 0 <= i {
            assert(suit_choice(plan, 0, 0, i));
        }
    }
    assert forall|i: int| #[trigger] sv(r, i) == sv(plan, n - 3 - i) by {
        if 0 <= i < n {
        } else if i < 0 {
            if i >= -2 {
                assert(sv(plan, n - 3 - i) == 0);
            }
        }
    }
    assert forall|i: int| 0 <= i < n implies #[trigger] used(plan, 0, 0, i) == sv(plan, i - 2) + sv(plan, i - 1)
        + sv(plan, i) + 3 * plan[i].0 + 2 * plan[i].1 by {}
    assert forall|j: int| 0 <= j < n implies #[trigger] used(r, 0, 0, j) == used(plan, 0, 0, n - 1 - j) by {
        assert(sv(r, j - 2) == sv(plan, n - 1 - j));
        assert(sv(r, j - 1) == sv(plan, n - 2 - j));
        assert(sv(r, j) == sv(plan, n - 3 - j));
        assert(used(plan, 0, 0, n - 1 - j) == sv(plan, n - 3 - j) + sv(plan, n - 2 - j) + sv(plan, n - 1 - j) + 3
            * plan[n - 1 - j].0 + 2 * plan[n - 1 - j].1);
    }
    assert forall|j: int| 0 <= j < n implies #[trigger] suit_choice(r, 0, 0, j) by {
        assert(suit_choice(plan, 0, 0, n - 1 - j));
        assert(used(r, 0, 0, j) == used(plan, 0, 0, n - 1 - j));
        if 0 <= n - 3 - j {
            assert(suit_choice(plan, 0, 0, n - 3 - j));
        }
    }
    if n > 0 {
        assert(sv(r, n - 1) == sv(plan, -2));
        assert(sv(r, n - 2) == sv(plan, -1));
    }
    // The melds: triplets mirrored, sequences mirrored after a shift by two.
    let ts = plan.map_values(|c: Choice| c.0);
    let shifted = Seq::new(plan.len(), |i: int| sv(plan, i - 2));
    let rts = r.map_values(|c: Choice| c.0);
    let rss = r.map_values(|c: Choice| c.2);
    let ss = plan.map_values(|c: Choice| c.2);
    assert(rts =~= ts.reverse());
    assert(rss =~= shifted.reverse());
    lemma_sum_of_reverse(ts);
    lemma_sum_of_reverse(shifted);
    lemma_sum_pointwise(plan);
    lemma_sum_pointwise(r);
    if n >= 2 {
        let mid = ss.subrange(0, n - 2);
        assert(shifted =~= seq![0int, 0int] + mid);
        assert(ss =~= mid + seq![0int, 0int]);
        lemma_sum_of_concat(seq![0int, 0int], mid);
        lemma_sum_of_concat(mid, seq![0int, 0int]);
        assert(seq![0int, 0int] =~= seq![0int] + seq![0int]);
        lemma_sum_of_concat(seq![0int], seq![0int]);
        lemma_sum_of_one(0);
    } else {
        assert(shifted =~= ss);
    }
    assert(pair_count(r) =~= pair_count(plan).reverse());
    lemma_sum_of_reverse(pair_count(plan));
    assert(suit_terms(d.reverse(), 0, r, 0, 0) =~= suit_terms(d, 0, plan, 0, 0).reverse());
}

/// The melds of a plan are its triplets plus its sequences.
proof fn lemma_sum_pointwise(plan: Seq<Choice>)
    ensures
        sum_of(melds(plan)) == sum_of(plan.map_values(|c: Choice| c.0)) + sum_of(plan.map_values(|c: Choice| c.2)),
    decreases plan.len(),
{
    if plan.len() > 0 {
        let rest = plan.drop_first();
        lemma_sum_pointwise(rest);
        assert(melds(plan).drop_first() =~= melds(rest));
        assert(plan.map_values(|c: Choice| c.0).drop_first() =~= rest.map_values(|c: Choice| c.0));
        assert(plan.map_values(|c: Choice| c.2).drop_first() =~= rest.map_values(|c: Choice| c.2));
    }
}

/// Reading a suit backwards does not lower its distance.
proof fn lemma_reverse_le(d: Seq<u8>, k: int, p: int)
    requires
        d.len() == 9,
    ensures
        min_dist(d.reverse(), false, 0, 9, 0, 0, k, p) <= min_dist(d, false, 0, 9, 0, 0, k, p),
{
    lemma_dist_range(d.reverse(), false, 0, 9, 0, 0, k, p);
    if min_dist(d, false, 0, 9, 0, 0, k, p) < INF as int {
        lemma_min_dist_attained(d, false, 0, 9, 0, 0, k, p);
        let plan = choose|plan: Seq<Choice>|
            plan_ok(d, false, 0, 9, 0, 0, k, p, plan) && #[trigger] plan_cost(d, 0, 0, 0, plan) == min_dist(
                d,
                false,
                0,
                9,
                0,
                0,
                k,
                p,
            );
        lemma_suit_plan(d, 0, 9, 0, 0, k, p, plan);
        lemma_mirror(d, plan);
        lemma_suit_plan_ok(d.reverse(), 0, 9, 0, 0, k, p, mirror(plan));
        lemma_sum_of_reverse(suit_terms(d, 0, plan, 0, 0));
        lemma_min_dist_lower_bound(d.reverse(), false, 0, 9, 0, 0, k, p, mirror(plan));
    }
}

/// `h` with the nine counts of suit `x` in reverse order.
pub open spec fn reverse_suit(h: Seq<u8>, x: int) -> Seq<u8> {
    Seq::new(h.len(), |j: int| if 9 * x <= j < 9 * x + 9 { h[18 * x + 8 - j] } else { h[j] })
}

/// Reading a suit from nine down to one leaves the regular-hand distance
/// unchanged.
pub proof fn lemma_reverse_suit_distance(h: Seq<u8>, x: int, m: int)
    requires
        h.len() == 34,
        0 <= x < 3,
    ensures
        normal_distance(reverse_suit(h, x), m) == normal_distance(h, m),
{
    let h2 = reverse_suit(h, x);
    let d = group(h, x);
    assert(group(h2, x) =~= d.reverse());
    assert(d.reverse().reverse() =~= d);
    assert forall|g: int| 0 <= g < 4 && g != x implies #[trigger] group(h2, g) == group(h, g) by {
        assert(group(h2, g) =~= group(h, g));
    }
    assert forall|i: int| 0 <= i < 10 implies #[trigger] group_entry(d.reverse(), false)[i] == group_entry(d, false)[i] by {
        let (k, p) = if i < 5 { (i, 0int) } else { (i - 5, 1int) };
        lemma_reverse_le(d, k, p);
        lemma_reverse_le(d.reverse(), k, p);
    }
    assert(group_entry(d.reverse(), false) =~= group_entry(d, false));
}

} // verus!
