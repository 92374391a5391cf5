//! The lookup tables cover every hand of up to 13 tiles, so on such hands
//! `calc_normal` and `calc_all` give the regular-hand distance itself.

use super::draw::{hand_size, seg_sum};
use super::{base5, group, group_entry, group_table_entry, normal_distance, table_covers, table_distance,
    table_entry, JIHAI_TABLE_SIZE, SUHAI_TABLE_SIZE};
use vstd::prelude::*;

verus! {

/// The largest base-5 reading of `n` counts of at most 4 each that add up
/// to at most `total`.
pub open spec fn max_base5(n: nat, total: int) -> int
    decreases n,
{
    if n == 0 {
        0
    } else {
        let step = |d: int|
            if d <= total {
                max_base5((n - 1) as nat, total - d) * 5 + d
            } else {
                -1
            };
        let a = if step(0) >= step(1) { step(0) } else { step(1) };
        let b = if step(2) >= step(3) { step(2) } else { step(3) };
        let c = if a >= b { a } else { b };
        if c >= step(4) { c } else { step(4) }
    }
}

pub(crate) proof fn lemma_max_base5_mono(n: nat, t1: int, t2: int)
    requires
        0 <= t1 <= t2,
    ensures
        0 <= max_base5(n, t1) <= max_base5(n, t2),
    decreases n,
{
    if n > 0 {
        if 0 <= t1 {
            lemma_max_base5_mono((n - 1) as nat, t1 - 0, t2 - 0);
        }
        if 0 <= t2 {
            lemma_max_base5_mono((n - 1) as nat, t2 - 0, t2 - 0);
        }
        if 1 <= t1 {
            lemma_max_base5_mono((n - 1) as nat, t1 - 1, t2 - 1);
        }
        if 1 <= t2 {
            lemma_max_base5_mono((n - 1) as nat, t2 - 1, t2 - 1);
        }
        if 2 <= t1 {
            lemma_max_base5_mono((n - 1) as nat, t1 - 2, t2 - 2);
        }
        if 2 <= t2 {
            lemma_max_base5_mono((n - 1) as nat, t2 - 2, t2 - 2);
        }
        if 3 <= t1 {
            lemma_max_base5_mono((n - 1) as nat, t1 - 3, t2 - 3);
        }
        if 3 <= t2 {
            lemma_max_base5_mono((n - 1) as nat, t2 - 3, t2 - 3);
        }
        if 4 <= t1 {
            lemma_max_base5_mono((n - 1) as nat, t1 - 4, t2 - 4);
        }
        if 4 <= t2 {
            lemma_max_base5_mono((n - 1) as nat, t2 - 4, t2 - 4);
        }
    }
}

/// A reading of counts of at most 4 is at most the largest one with the
/// same number of tiles.
pub(crate) proof fn lemma_base5_le_max(s: Seq<u8>)
    requires
        forall|i: int| 0 <= i < s.len() ==> #[trigger] s[i] <= 4,
    ensures
        base5(s) <= max_base5(s.len(), seg_sum(s, 0, s.len() as int)),
    decreases s.len(),
{
    if s.len() > 0 {
        let n = s.len() as int;
        let init = s.drop_last();
        assert forall|i: int| 0 <= i < init.len() implies #[trigger] init[i] <= 4 by {
            assert(init[i] == s[i]);
        }
        lemma_base5_le_max(init);
        super::draw::lemma_seg_split(s, 0, n - 1, n);
        assert(init =~= s.subrange(0, n - 1));
        super::draw::lemma_seg_sub(s, 0, n - 1, 0);
        assert(seg_sum(s, n - 1, n) == s[n - 1]) by {
            assert(seg_sum(s, n, n) == 0);
        }
        assert(s.last() <= 4);
    }
}

/// The largest readings of 7 and 9 counts holding 13 tiles, worked out
/// from fewer counts up.
proof fn lemma_max_base5_values()
    ensures
        max_base5(9, 13) == 1940625,
        max_base5(7, 13) == 77625,
{
    assert(max_base5(0, 0) == 0);
    assert(max_base5(0, 1) == 0);
    assert(max_base5(0, 2) == 0);
    assert(max_base5(0, 3) == 0);
    assert(max_base5(0, 4) == 0);
    assert(max_base5(0, 5) == 0);
    assert(max_base5(0, 6) == 0);
    assert(max_base5(0, 7) == 0);
    assert(max_base5(0, 8) == 0);
    assert(max_base5(0, 9) == 0);
    assert(max_base5(0, 10) == 0);
    assert(max_base5(0, 11) == 0);
    assert(max_base5(0, 12) == 0);
    assert(max_base5(0, 13) == 0);
    assert(max_base5(1, 0) == 0);
    assert(max_base5(1, 1) == 1);
    assert(max_base5(1, 2) == 2);
    assert(max_base5(1, 3) == 3);
    assert(max_base5(1, 4) == 4);
    assert(max_base5(1, 5) == 4);
    assert(max_base5(1, 6) == 4);
    assert(max_base5(1, 7) == 4);
    assert(max_base5(1, 8) == 4);
    assert(max_base5(1, 9) == 4);
    assert(max_base5(1, 10) == 4);
    assert(max_base5(1, 11) == 4);
    assert(max_base5(1, 12) == 4);
    assert(max_base5(1, 13) == 4);
    assert(max_base5(2, 0) == 0);
    assert(max_base5(2, 1) == 5);
    assert(max_base5(2, 2) == 10);
    assert(max_base5(2, 3) == 15);
    assert(max_base5(2, 4) == 20);
    assert(max_base5(2, 5) == 21);
    assert(max_base5(2, 6) == 22);
    assert(max_base5(2, 7) == 23);
    assert(max_base5(2, 8) == 24);
    assert(max_base5(2, 9) == 24);
    assert(max_base5(2, 10) == 24);
    assert(max_base5(2, 11) == 24);
    assert(max_base5(2, 12) == 24);
    assert(max_base5(2, 13) == 24);
    assert(max_base5(3, 0) == 0);
    assert(max_base5(3, 1) == 25);
    assert(max_base5(3, 2) == 50);
    assert(max_base5(3, 3) == 75);
    assert(max_base5(3, 4) == 100);
    assert(max_base5(3, 5) == 105);
    assert(max_base5(3, 6) == 110);
    assert(max_base5(3, 7) == 115);
    assert(max_base5(3, 8) == 120);
    assert(max_base5(3, 9) == 121);
    assert(max_base5(3, 10) == 122);
    assert(max_base5(3, 11) == 123);
    assert(max_base5(3, 12) == 124);
    assert(max_base5(3, 13) == 124);
    assert(max_base5(4, 0) == 0);
    assert(max_base5(4, 1) == 125);
    assert(max_base5(4, 2) == 250);
    assert(max_base5(4, 3) == 375);
    assert(max_base5(4, 4) == 500);
    assert(max_base5(4, 5) == 525);
    assert(max_base5(4, 6) == 550);
    assert(max_base5(4, 7) == 575);
    assert(max_base5(4, 8) == 600);
    assert(max_base5(4, 9) == 605);
    assert(max_base5(4, 10) == 610);
    assert(max_base5(4, 11) == 615);
    assert(max_base5(4, 12) == 620);
    assert(max_base5(4, 13) == 621);
    assert(max_base5(5, 0) == 0);
    assert(max_base5(5, 1) == 625);
    assert(max_base5(5, 2) == 1250);
    assert(max_base5(5, 3) == 1875);
    assert(max_base5(5, 4) == 2500);
    assert(max_base5(5, 5) == 2625);
    assert(max_base5(5, 6) == 2750);
    assert(max_base5(5, 7) == 2875);
    assert(max_base5(5, 8) == 3000);
    assert(max_base5(5, 9) == 3025);
    assert(max_base5(5, 10) == 3050);
    assert(max_base5(5, 11) == 3075);
    assert(max_base5(5, 12) == 3100);
    assert(max_base5(5, 13) == 3105);
    assert(max_base5(6, 0) == 0);
    assert(max_base5(6, 1) == 3125);
    assert(max_base5(6, 2) == 6250);
    assert(max_base5(6, 3) == 9375);
    assert(max_base5(6, 4) == 12500);
    assert(max_base5(6, 5) == 13125);
    assert(max_base5(6, 6) == 13750);
    assert(max_base5(6, 7) == 14375);
    assert(max_base5(6, 8) == 15000);
    assert(max_base5(6, 9) == 15125);
    assert(max_base5(6, 10) == 15250);
    assert(max_base5(6, 11) == 15375);
    assert(max_base5(6, 12) == 15500);
    assert(max_base5(6, 13) == 15525);
    assert(max_base5(7, 0) == 0);
    assert(max_base5(7, 1) == 15625);
    assert(max_base5(7, 2) == 31250);
    assert(max_base5(7, 3) == 46875);
    assert(max_base5(7, 4) == 62500);
    assert(max_base5(7, 5) == 65625);
    assert(max_base5(7, 6) == 68750);
    assert(max_base5(7, 7) == 71875);
    assert(max_base5(7, 8) == 75000);
    assert(max_base5(7, 9) == 75625);
    assert(max_base5(7, 10) == 76250);
    assert(max_base5(7, 11) == 76875);
    assert(max_base5(7, 12) == 77500);
    assert(max_base5(7, 13) == 77625);
    assert(max_base5(8, 0) == 0);
    assert(max_base5(8, 1) == 78125);
    assert(max_base5(8, 2) == 156250);
    assert(max_base5(8, 3) == 234375);
    assert(max_base5(8, 4) == 312500);
    assert(max_base5(8, 5) == 328125);
    assert(max_base5(8, 6) == 343750);
    assert(max_base5(8, 7) == 359375);
    assert(max_base5(8, 8) == 375000);
    assert(max_base5(8, 9) == 378125);
    assert(max_base5(8, 10) == 381250);
    assert(max_base5(8, 11) == 384375);
    assert(max_base5(8, 12) == 387500);
    assert(max_base5(8, 13) == 388125);
    assert(max_base5(9, 0) == 0);
    assert(max_base5(9, 1) == 390625);
    assert(max_base5(9, 2) == 781250);
    assert(max_base5(9, 3) == 1171875);
    assert(max_base5(9, 4) == 1562500);
    assert(max_base5(9, 5) == 1640625);
    assert(max_base5(9, 6) == 1718750);
    assert(max_base5(9, 7) == 1796875);
    assert(max_base5(9, 8) == 1875000);
    assert(max_base5(9, 9) == 1890625);
    assert(max_base5(9, 10) == 1906250);
    assert(max_base5(9, 11) == 1921875);
    assert(max_base5(9, 12) == 1937500);
    assert(max_base5(9, 13) == 1940625);
}

/// Every hand of at most 13 tiles, at most 4 of a kind, lies inside the
/// lookup tables.
pub proof fn lemma_small_hands_covered(h: Seq<u8>)
    requires
        h.len() == 34,
        forall|i: int| 0 <= i < 34 ==> h[i] <= 4,
        hand_size(h) <= 13,
    ensures
        table_covers(h),
{
    lemma_max_base5_values();
    super::draw::lemma_group_size(h);
    super::draw::lemma_seg_nonneg(group(h, 0), 0, 9);
    super::draw::lemma_seg_nonneg(group(h, 1), 0, 9);
    super::draw::lemma_seg_nonneg(group(h, 2), 0, 9);
    super::draw::lemma_seg_nonneg(group(h, 3), 0, 7);
    assert forall|g: int| 0 <= g < 4 implies #[trigger] base5(group(h, g)) <= max_base5(
        group(h, g).len(),
        13,
    ) by {
        let d = group(h, g);
        assert forall|i: int| 0 <= i < d.len() implies #[trigger] d[i] <= 4 by {
            assert(d[i] == h[9 * g + i]);
        }
        lemma_base5_le_max(d);
        lemma_max_base5_mono(d.len(), seg_sum(d, 0, d.len() as int), 13);
    }
    assert(base5(group(h, 0)) <= max_base5(9, 13));
    assert(base5(group(h, 1)) <= max_base5(9, 13));
    assert(base5(group(h, 2)) <= max_base5(9, 13));
    assert(base5(group(h, 3)) <= max_base5(7, 13));
}

/// On a hand of at most 13 tiles the lookup tables give the regular-hand
/// distance itself, so `calc_normal` and `calc_all` report it.
pub proof fn lemma_small_hands_table(h: Seq<u8>, m: int)
    requires
        h.len() == 34,
        forall|i: int| 0 <= i < 34 ==> h[i] <= 4,
        hand_size(h) <= 13,
    ensures
        table_distance(h, m) == normal_distance(h, m),
{
    lemma_small_hands_covered(h);
    super::lemma_table_is_group_entry(h, 0);
    super::lemma_table_is_group_entry(h, 1);
    super::lemma_table_is_group_entry(h, 2);
    super::lemma_table_is_group_entry(h, 3);
}

/// Where the tables cover a hand, they give its regular-hand distance.
pub(crate) proof fn lemma_covered_table(h: Seq<u8>, m: int)
    requires
        table_covers(h),
    ensures
        table_distance(h, m) == normal_distance(h, m),
{
    super::lemma_table_is_group_entry(h, 0);
    super::lemma_table_is_group_entry(h, 1);
    super::lemma_table_is_group_entry(h, 2);
    super::lemma_table_is_group_entry(h, 3);
}

} // verus!
