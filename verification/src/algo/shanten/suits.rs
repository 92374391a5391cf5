//! The three suits play the same part: exchanging two of them leaves the
//! regular-hand distance unchanged.

use super::{combine, combine_split, group, group_table_entry, group_entry, lemma_combine_le, normal_distance, split_ok, split_sum, table_distance};
use vstd::prelude::*;

verus! {

/// `h` with the nine counts of suit `x` and those of suit `y` exchanged.
pub open spec fn swap_suits(h: Seq<u8>, x: int, y: int) -> Seq<u8> {
    Seq::new(
        h.len(),
        |j: int|
            if 9 * x <= j < 9 * x + 9 {
                h[j - 9 * x + 9 * y]
            } else if 9 * y <= j < 9 * y + 9 {
                h[j - 9 * y + 9 * x]
            } else {
                h[j]
            },
    )
}

/// The combination does not depend on the order of the first two groups.
proof fn lemma_combine_swap01(e0: Seq<int>, e1: Seq<int>, e2: Seq<int>, e3: Seq<int>, m: int)
    requires
        0 <= m <= 4,
    ensures
        combine(e1, e0, e2, e3, m) == combine(e0, e1, e2, e3, m),
{
    let (ks, ps) = combine_split(e0, e1, e2, e3, m);
    let ks2 = seq![ks[1], ks[0], ks[2], ks[3]];
    let ps2 = seq![ps[1], ps[0], ps[2], ps[3]];
    assert(split_ok(m, ks2, ps2));
    assert(split_sum(e1, e0, e2, e3, ks2, ps2) == split_sum(e0, e1, e2, e3, ks, ps));
    lemma_combine_le(e1, e0, e2, e3, m, ks2, ps2);
    let (ls, qs) = combine_split(e1, e0, e2, e3, m);
    let ls2 = seq![ls[1], ls[0], ls[2], ls[3]];
    let qs2 = seq![qs[1], qs[0], qs[2], qs[3]];
    assert(split_ok(m, ls2, qs2));
    assert(split_sum(e0, e1, e2, e3, ls2, qs2) == split_sum(e1, e0, e2, e3, ls, qs));
    lemma_combine_le(e0, e1, e2, e3, m, ls2, qs2);
}

/// The combination does not depend on the order of the second and third
/// groups.
proof fn lemma_combine_swap12(e0: Seq<int>, e1: Seq<int>, e2: Seq<int>, e3: Seq<int>, m: int)
    requires
        0 <= m <= 4,
    ensures
        combine(e0, e2, e1, e3, m) == combine(e0, e1, e2, e3, m),
{
    let (ks, ps) = combine_split(e0, e1, e2, e3, m);
    let ks2 = seq![ks[0], ks[2], ks[1], ks[3]];
    let ps2 = seq![ps[0], ps[2], ps[1], ps[3]];
    assert(split_ok(m, ks2, ps2));
    assert(split_sum(e0, e2, e1, e3, ks2, ps2) == split_sum(e0, e1, e2, e3, ks, ps));
    lemma_combine_le(e0, e2, e1, e3, m, ks2, ps2);
    let (ls, qs) = combine_split(e0, e2, e1, e3, m);
    let ls2 = seq![ls[0], ls[2], ls[1], ls[3]];
    let qs2 = seq![qs[0], qs[2], qs[1], qs[3]];
    assert(split_ok(m, ls2, qs2));
    assert(split_sum(e0, e1, e2, e3, ls2, qs2) == split_sum(e0, e2, e1, e3, ls, qs));
    lemma_combine_le(e0, e1, e2, e3, m, ls2, qs2);
}

/// Any order of the three suit groups gives the same combination.
proof fn lemma_combine_perm(e: Seq<Seq<int>>, e3: Seq<int>, x: int, y: int, m: int)
    requires
        e.len() == 3,
        0 <= x < 3,
        0 <= y < 3,
        0 <= m <= 4,
    ensures
        ({
            let f = e.update(x, e[y]).update(y, e[x]);
            combine(f[0], f[1], f[2], e3, m) == combine(e[0], e[1], e[2], e3, m)
        }),
{
    let (e0, e1, e2) = (e[0], e[1], e[2]);
    let f = e.update(x, e[y]).update(y, e[x]);
    if x == y {
        assert(f =~= e);
    } else if (x == 0 && y == 1) || (x == 1 && y == 0) {
        assert(f =~= seq![e1, e0, e2]);
        lemma_combine_swap01(e0, e1, e2, e3, m);
    } else if (x == 1 && y == 2) || (x == 2 && y == 1) {
        assert(f =~= seq![e0, e2, e1]);
        lemma_combine_swap12(e0, e1, e2, e3, m);
    } else {
        assert(f =~= seq![e2, e1, e0]);
        lemma_combine_swap01(e2, e1, e0, e3, m);
        lemma_combine_swap12(e1, e2, e0, e3, m);
        lemma_combine_swap01(e1, e0, e2, e3, m);
    }
}

proof fn lemma_swap_groups(h: Seq<u8>, x: int, y: int, g: int)
    requires
        h.len() == 34,
        0 <= x < 3,
        0 <= y < 3,
        0 <= g < 4,
    ensures
        group(swap_suits(h, x, y), g) == group(h, if g == x { y } else if g == y { x } else { g }),
{
    let s = swap_suits(h, x, y);
    let src = if g == x { y } else if g == y { x } else { g };
    assert(group(s, g) =~= group(h, src));
}

/// Exchanging two suits of a hand leaves its regular-hand distance
/// unchanged, both as the lookup tables give it and as the minimum over
/// all decompositions.
pub proof fn lemma_swap_suits_distance(h: Seq<u8>, x: int, y: int, m: int)
    requires
        h.len() == 34,
        0 <= x < 3,
        0 <= y < 3,
        0 <= m <= 4,
    ensures
        table_distance(swap_suits(h, x, y), m) == table_distance(h, m),
        normal_distance(swap_suits(h, x, y), m) == normal_distance(h, m),
{
    let s = swap_suits(h, x, y);
    lemma_swap_groups(h, x, y, 0);
    lemma_swap_groups(h, x, y, 1);
    lemma_swap_groups(h, x, y, 2);
    lemma_swap_groups(h, x, y, 3);
    let t = seq![group_table_entry(h, 0), group_table_entry(h, 1), group_table_entry(h, 2)];
    lemma_combine_perm(t, group_table_entry(h, 3), x, y, m);
    let tf = t.update(x, t[y]).update(y, t[x]);
    assert(tf[0] == group_table_entry(s, 0));
    assert(tf[1] == group_table_entry(s, 1));
    assert(tf[2] == group_table_entry(s, 2));
    let n = seq![group_entry(group(h, 0), false), group_entry(group(h, 1), false), group_entry(group(h, 2), false)];
    lemma_combine_perm(n, group_entry(group(h, 3), true), x, y, m);
    let nf = n.update(x, n[y]).update(y, n[x]);
    assert(nf[0] == group_entry(group(s, 0), false));
    assert(nf[1] == group_entry(group(s, 1), false));
    assert(nf[2] == group_entry(group(s, 2), false));
}

} // verus!
