//! Shanten numbers of regular hands (four melds and a pair), seven pairs and
//! thirteen orphans.
//!
//! A hand is split into four groups: the three suits and the honors. For each
//! group and each count of melds (with or without the pair) the minimal number
//! of tiles that must be brought in to complete that many melds inside the
//! group is computed; the groups are then combined by a min-plus convolution.

pub mod draw;
pub mod admitted;
pub mod cover;
pub mod honors;
pub mod orphans;
pub mod reversal;
pub mod suits;

use vstd::prelude::*;

verus! {

/// Marks a shape that cannot be completed.
pub const INF: u8 = 100;

/// Entries of the base-5 lookup table of a suit group; larger indices read
/// as all zeros.
pub const SUHAI_TABLE_SIZE: usize = 1_940_777;
/// Entries of the honor lookup table.
pub const JIHAI_TABLE_SIZE: usize = 78_032;

pub open spec fn clamp(x: int) -> int {
    if x < INF as int { x } else { INF as int }
}

pub open spec fn min2(x: int, y: int) -> int {
    if x <= y { x } else { y }
}

/// Whether a sequence may start at `pos` of a group ending at `end`.
pub open spec fn seq_ok(honor: bool, pos: int, end: int) -> bool {
    !honor && pos + 2 < end
}

/// Cost of choosing, at `pos`, `t` triplets, `q` pairs and `s` new
/// sequences while `a` tiles are still owed to `pos` and `b` to `pos + 1` by
/// earlier sequences; `k` melds and `p` pairs remain to be placed.
pub open spec fn opt_val(
    h: Seq<u8>,
    honor: bool,
    pos: int,
    end: int,
    a: int,
    b: int,
    k: int,
    p: int,
    t: int,
    q: int,
    s: int,
) -> int
    decreases end - pos, 0int,
{
    let w = a + 3 * t + 2 * q + s;
    if pos >= end || pos < 0 || t > k || q > p || t + s > k || w > 4 || (s > 0 && !seq_ok(
        honor,
        pos,
        end,
    )) {
        INF as int
    } else {
        let have = h[pos] as int;
        let cost = if w > have { w - have } else { 0 };
        clamp(cost + min_dist(h, honor, pos + 1, end, b + s, s, k - t - s, p - q))
    }
}

pub open spec fn min_s(
    h: Seq<u8>,
    honor: bool,
    pos: int,
    end: int,
    a: int,
    b: int,
    k: int,
    p: int,
    t: int,
    q: int,
) -> int
    decreases end - pos, 1int,
{
    min2(
        min2(
            min2(
                opt_val(h, honor, pos, end, a, b, k, p, t, q, 0),
                opt_val(h, honor, pos, end, a, b, k, p, t, q, 1),
            ),
            min2(
                opt_val(h, honor, pos, end, a, b, k, p, t, q, 2),
                opt_val(h, honor, pos, end, a, b, k, p, t, q, 3),
            ),
        ),
        opt_val(h, honor, pos, end, a, b, k, p, t, q, 4),
    )
}

/// The minimal number of tiles to bring into positions `pos..end` of `h`
/// so that, together with `a` and `b` tiles owed by sequences started
/// before `pos`, they form exactly `k` melds and `p` pairs, no tile kind
/// being used more than four times; `INF` when impossible.
pub open spec fn min_dist(
    h: Seq<u8>,
    honor: bool,
    pos: int,
    end: int,
    a: int,
    b: int,
    k: int,
    p: int,
) -> int
    decreases end - pos, 2int,
{
    if pos >= end {
        if a == 0 && b == 0 && k == 0 && p == 0 {
            0
        } else {
            INF as int
        }
    } else {
        min2(
            min2(
                min_s(h, honor, pos, end, a, b, k, p, 0, 0),
                min_s(h, honor, pos, end, a, b, k, p, 0, 1),
            ),
            min2(
                min_s(h, honor, pos, end, a, b, k, p, 1, 0),
                min_s(h, honor, pos, end, a, b, k, p, 1, 1),
            ),
        )
    }
}

/// The 10 entries of a group: entry `j` is the distance to `j` melds
/// without the pair, entry `5 + j` with the pair.
pub open spec fn group_entry(d: Seq<u8>, honor: bool) -> Seq<int> {
    Seq::new(
        10,
        |i: int|
            if i < 5 {
                min_dist(d, honor, 0, d.len() as int, 0, 0, i, 0)
            } else {
                min_dist(d, honor, 0, d.len() as int, 0, 0, i - 5, 1)
            },
    )
}

spec fn cell(a: int, b: int, k: int, p: int) -> int {
    ((a * 5 + b) * 5 + k) * 2 + p
}

/// The table of all states at `pos` holds the distances from `pos` on.
spec fn table_ok(t: Seq<u8>, h: Seq<u8>, honor: bool, pos: int, end: int) -> bool {
    &&& t.len() == 250
    &&& forall|a: int, b: int, k: int, p: int|
        0 <= a < 5 && 0 <= b < 5 && 0 <= k < 5 && 0 <= p < 2 ==> #[trigger] t[cell(a, b, k, p)]
            == min_dist(h, honor, pos, end, a, b, k, p)
}

proof fn lemma_cell(a: int, b: int, k: int, p: int)
    requires
        0 <= a < 5,
        0 <= b < 5,
        0 <= k < 5,
        0 <= p < 2,
    ensures
        0 <= cell(a, b, k, p) < 250,
{
}

/// Owing more than four tiles to one position can never be completed.
proof fn lemma_overfull(h: Seq<u8>, honor: bool, pos: int, end: int, a: int, b: int, k: int, p: int)
    requires
        a > 4,
        pos >= 0,
    ensures
        min_dist(h, honor, pos, end, a, b, k, p) == INF as int,
{
    if pos < end {
        assert(min_s(h, honor, pos, end, a, b, k, p, 0, 0) == INF as int);
        assert(min_s(h, honor, pos, end, a, b, k, p, 0, 1) == INF as int);
        assert(min_s(h, honor, pos, end, a, b, k, p, 1, 0) == INF as int);
        assert(min_s(h, honor, pos, end, a, b, k, p, 1, 1) == INF as int);
    }
}

fn min_u8(x: u8, y: u8) -> (r: u8)
    ensures
        r == min2(x as int, y as int),
{
    if x <= y {
        x
    } else {
        y
    }
}

/// One option at `pos`, read from the table of `pos + 1`.
fn opt_exec(
    next: &Vec<u8>,
    d: &Vec<u8>,
    honor: bool,
    pos: usize,
    end: usize,
    a: u8,
    b: u8,
    k: u8,
    p: u8,
    t: u8,
    q: u8,
    s: u8,
) -> (r: u8)
    requires
        table_ok(next@, d@, honor, pos + 1, end as int),
        pos < end,
        end == d.len(),
        a < 5,
        b < 5,
        k < 5,
        p < 2,
        t < 2,
        q < 2,
        s < 5,
    ensures
        r == opt_val(d@, honor, pos as int, end as int, a as int, b as int, k as int, p as int, t as int, q as int, s as int),
{
    let w = a + 3 * t + 2 * q + s;
    if t > k || q > p || t + s > k || w > 4 || (s > 0 && !(!honor && end - pos > 2)) {
        return INF;
    }
    let have = d[pos];
    let cost: u8 = if w > have {
        w - have
    } else {
        0
    };
    let na = b + s;
    let rest: u8 = if na > 4 {
        proof {
            lemma_overfull(d@, honor, pos as int + 1, end as int, na as int, s as int, (k - t - s) as int, (p - q) as int);
        }
        INF
    } else {
        let idx = (((na as usize) * 5 + s as usize) * 5 + (k - t - s) as usize) * 2 + (p - q) as usize;
        proof {
            lemma_cell(na as int, s as int, (k - t - s) as int, (p - q) as int);
            assert(idx == cell(na as int, s as int, (k - t - s) as int, (p - q) as int));
            assert(next@[cell(na as int, s as int, (k - t - s) as int, (p - q) as int)] == min_dist(
                d@,
                honor,
                pos + 1,
                end as int,
                na as int,
                s as int,
                (k - t - s) as int,
                (p - q) as int,
            ));
        }
        next[idx]
    };
    let sum: u16 = cost as u16 + rest as u16;
    if sum < INF as u16 {
        sum as u8
    } else {
        INF
    }
}


fn cell_value(next: &Vec<u8>, d: &Vec<u8>, honor: bool, pos: usize, end: usize, a: u8, b: u8, k: u8, p: u8) -> (r: u8)
    requires
        table_ok(next@, d@, honor, pos + 1, end as int),
        pos < end,
        end == d.len(),
        a < 5,
        b < 5,
        k < 5,
        p < 2,
    ensures
        r == min_dist(d@, honor, pos as int, end as int, a as int, b as int, k as int, p as int),
{
    let mut best: [u8; 4] = [0; 4];
    let mut i: usize = 0;
    while i < 4
        invariant
            0 <= i <= 4,
            table_ok(next@, d@, honor, pos + 1, end as int),
            pos < end,
            end == d.len(),
            a < 5,
            b < 5,
            k < 5,
            p < 2,
            forall|j: int|
                0 <= j < i ==> #[trigger] best@[j] == min_s(
                    d@,
                    honor,
                    pos as int,
                    end as int,
                    a as int,
                    b as int,
                    k as int,
                    p as int,
                    j / 2,
                    j % 2,
                ),
        decreases 4 - i,
    {
        let t = (i / 2) as u8;
        let q = (i % 2) as u8;
        let o0 = opt_exec(next, d, honor, pos, end, a, b, k, p, t, q, 0);
        let o1 = opt_exec(next, d, honor, pos, end, a, b, k, p, t, q, 1);
        let o2 = opt_exec(next, d, honor, pos, end, a, b, k, p, t, q, 2);
        let o3 = opt_exec(next, d, honor, pos, end, a, b, k, p, t, q, 3);
        let o4 = opt_exec(next, d, honor, pos, end, a, b, k, p, t, q, 4);
        let m = min_u8(min_u8(min_u8(o0, o1), min_u8(o2, o3)), o4);
        best[i] = m;
        i += 1;
    }
    min_u8(min_u8(best[0], best[1]), min_u8(best[2], best[3]))
}

/// The table of the positions past the end of a group.
fn final_table(Ghost(d): Ghost<Seq<u8>>, honor: bool, end: usize) -> (t: Vec<u8>)
    ensures
        table_ok(t@, d, honor, end as int, end as int),
{
    let mut t: Vec<u8> = Vec::new();
    let mut i: usize = 0;
    while i < 250
        invariant
            0 <= i <= 250,
            t.len() == i,
            forall|j: int| 0 <= j < i ==> #[trigger] t@[j] == if j == 0 { 0u8 } else { INF },
        decreases 250 - i,
    {
        if i == 0 {
            t.push(0);
        } else {
            t.push(INF);
        }
        i += 1;
    }
    assert forall|a: int, b: int, k: int, p: int|
        0 <= a < 5 && 0 <= b < 5 && 0 <= k < 5 && 0 <= p < 2 implies #[trigger] t@[cell(a, b, k, p)]
        == min_dist(d, honor, end as int, end as int, a, b, k, p) by {
        lemma_cell(a, b, k, p);
    }
    t
}

/// The table at `pos` from the table at `pos + 1`.
fn step_table(next: &Vec<u8>, d: &Vec<u8>, honor: bool, pos: usize, end: usize) -> (t: Vec<u8>)
    requires
        table_ok(next@, d@, honor, pos + 1, end as int),
        pos < end,
        end == d.len(),
    ensures
        table_ok(t@, d@, honor, pos as int, end as int),
{
    let mut t: Vec<u8> = Vec::new();
    for a in 0..5u8
        invariant
            table_ok(next@, d@, honor, pos + 1, end as int),
            pos < end,
            end == d.len(),
            t.len() == a * 50,
            forall|a2: int, b2: int, k2: int, p2: int|
                0 <= a2 < 5 && 0 <= b2 < 5 && 0 <= k2 < 5 && 0 <= p2 < 2 && cell(a2, b2, k2, p2)
                    < t.len() ==> #[trigger] t@[cell(a2, b2, k2, p2)] == min_dist(
                    d@,
                    honor,
                    pos as int,
                    end as int,
                    a2,
                    b2,
                    k2,
                    p2,
                ),
    {
        for b in 0..5u8
            invariant
                table_ok(next@, d@, honor, pos + 1, end as int),
                pos < end,
                end == d.len(),
                a < 5,
                t.len() == a * 50 + b * 10,
                forall|a2: int, b2: int, k2: int, p2: int|
                    0 <= a2 < 5 && 0 <= b2 < 5 && 0 <= k2 < 5 && 0 <= p2 < 2 && cell(a2, b2, k2, p2)
                        < t.len() ==> #[trigger] t@[cell(a2, b2, k2, p2)] == min_dist(
                        d@,
                        honor,
                        pos as int,
                        end as int,
                        a2,
                        b2,
                        k2,
                        p2,
                    ),
        {
            for k in 0..5u8
                invariant
                    table_ok(next@, d@, honor, pos + 1, end as int),
                    pos < end,
                    end == d.len(),
                    a < 5,
                    b < 5,
                    t.len() == a * 50 + b * 10 + k * 2,
                    forall|a2: int, b2: int, k2: int, p2: int|
                        0 <= a2 < 5 && 0 <= b2 < 5 && 0 <= k2 < 5 && 0 <= p2 < 2 && cell(
                            a2,
                            b2,
                            k2,
                            p2,
                        ) < t.len() ==> #[trigger] t@[cell(a2, b2, k2, p2)] == min_dist(
                            d@,
                            honor,
                            pos as int,
                            end as int,
                            a2,
                            b2,
                            k2,
                            p2,
                        ),
            {
                for p in 0..2u8
                    invariant
                        table_ok(next@, d@, honor, pos + 1, end as int),
                        pos < end,
                        end == d.len(),
                        a < 5,
                        b < 5,
                        k < 5,
                        t.len() == a * 50 + b * 10 + k * 2 + p,
                        forall|a2: int, b2: int, k2: int, p2: int|
                            0 <= a2 < 5 && 0 <= b2 < 5 && 0 <= k2 < 5 && 0 <= p2 < 2 && cell(
                                a2,
                                b2,
                                k2,
                                p2,
                            ) < t.len() ==> #[trigger] t@[cell(a2, b2, k2, p2)] == min_dist(
                                d@,
                                honor,
                                pos as int,
                                end as int,
                                a2,
                                b2,
                                k2,
                                p2,
                            ),
                {
                    let v = cell_value(next, d, honor, pos, end, a, b, k, p);
                    proof {
                        assert(cell(a as int, b as int, k as int, p as int) == t.len());
                    }
                    t.push(v);
                }
            }
        }
    }
    t
}

/// All 10 entries of a group.
fn compute_entry(d: &Vec<u8>, honor: bool) -> (e: [u8; 10])
    requires
        d.len() <= 9,
    ensures
        forall|i: int| 0 <= i < 10 ==> e@[i] == #[trigger] group_entry(d@, honor)[i],
{
    let end = d.len();
    let mut t = final_table(Ghost(d@), honor, end);
    let mut pos = end;
    while pos > 0
        invariant
            pos <= end,
            end == d.len(),
            table_ok(t@, d@, honor, pos as int, end as int),
        decreases pos,
    {
        pos -= 1;
        t = step_table(&t, d, honor, pos, end);
    }
    let mut e: [u8; 10] = [0; 10];
    let mut j: usize = 0;
    while j < 10
        invariant
            j <= 10,
            end == d.len(),
            table_ok(t@, d@, honor, 0, end as int),
            forall|i: int| 0 <= i < j ==> e@[i] == #[trigger] group_entry(d@, honor)[i],
        decreases 10 - j,
    {
        let (k, p): (usize, usize) = if j < 5 {
            (j, 0)
        } else {
            (j - 5, 1)
        };
        proof {
            lemma_cell(0, 0, k as int, p as int);
            assert(t@[cell(0, 0, k as int, p as int)] == min_dist(d@, honor, 0, end as int, 0, 0, k as int, p as int));
        }
        e[j] = t[k * 2 + p];
        j += 1;
    }
    e
}


/// Reading a count vector as a base-5 number, first count most significant.
pub open spec fn base5(s: Seq<u8>) -> int
    decreases s.len(),
{
    if s.len() == 0 {
        0
    } else {
        base5(s.drop_last()) * 5 + s.last() as int
    }
}

/// The `n` base-5 digits of `idx`, most significant first.
pub open spec fn digits5(idx: int, n: nat) -> Seq<u8>
    decreases n,
{
    if n == 0 {
        Seq::empty()
    } else {
        digits5(idx / 5, (n - 1) as nat).push((idx % 5) as u8)
    }
}

/// The entry that the lookup table holds at `idx`: the group minima of the
/// counts that `idx` encodes, or all zeros past the end of the table.
pub open spec fn table_entry(idx: int, n: nat, honor: bool, size: int) -> Seq<int> {
    if idx < size {
        group_entry(digits5(idx, n), honor)
    } else {
        Seq::new(10, |i: int| 0)
    }
}

spec fn base5_bound(n: nat) -> int
    decreases n,
{
    if n == 0 {
        0
    } else {
        base5_bound((n - 1) as nat) * 5 + 255
    }
}

proof fn lemma_base5_bound(s: Seq<u8>)
    ensures
        0 <= base5(s) <= base5_bound(s.len()),
    decreases s.len(),
{
    if s.len() > 0 {
        lemma_base5_bound(s.drop_last());
    }
}

proof fn lemma_base5_bound_mono(i: nat, j: nat)
    requires
        i <= j,
    ensures
        0 <= base5_bound(i) <= base5_bound(j),
    decreases j,
{
    if j > i {
        lemma_base5_bound_mono(i, (j - 1) as nat);
    } else if j > 0 {
        lemma_base5_bound_mono(0, (j - 1) as nat);
    }
}

/// Reading back the digits of a count vector whose counts are all below 5.
pub proof fn lemma_digits5_base5(s: Seq<u8>)
    requires
        forall|i: int| 0 <= i < s.len() ==> s[i] <= 4,
    ensures
        digits5(base5(s), s.len()) =~= s,
    decreases s.len(),
{
    if s.len() > 0 {
        let x = base5(s.drop_last());
        let l = s.last() as int;
        lemma_base5_bound(s.drop_last());
        assert((x * 5 + l) / 5 == x && (x * 5 + l) % 5 == l) by (nonlinear_arith)
            requires
                0 <= l < 5,
                x >= 0,
        ;
        lemma_digits5_base5(s.drop_last());
        assert(s.drop_last().push(s.last()) =~= s);
    }
}

/// Reads the counts as a base-5 number, first count most significant.
pub fn sum_tiles(tiles: &[u8]) -> (r: usize)
    requires
        tiles.len() <= 9,
    ensures
        r == base5(tiles@),
{
    proof {
        assert(base5_bound(9) == 124511655) by {
            reveal_with_fuel(base5_bound, 10);
        }
    }
    let mut acc: usize = 0;
    let mut i: usize = 0;
    while i < tiles.len()
        invariant
            i <= tiles.len() <= 9,
            acc == base5(tiles@.subrange(0, i as int)),
            base5_bound(9) == 124511655,
        decreases tiles.len() - i,
    {
        proof {
            lemma_base5_bound(tiles@.subrange(0, i as int));
            lemma_base5_bound_mono(i as nat, 9);
            assert(tiles@.subrange(0, i as int + 1).drop_last() =~= tiles@.subrange(0, i as int));
        }
        acc = acc * 5 + tiles[i] as usize;
        i += 1;
    }
    proof {
        assert(tiles@.subrange(0, i as int) =~= tiles@);
    }
    acc
}

/// The `n` base-5 digits of `idx`.
fn digits_of(idx: usize, n: usize) -> (r: Vec<u8>)
    ensures
        r@ == digits5(idx as int, n as nat),
        r.len() == n,
    decreases n,
{
    if n == 0 {
        Vec::new()
    } else {
        let mut v = digits_of(idx / 5, n - 1);
        v.push((idx % 5) as u8);
        v
    }
}

/// The entry of a suit group, as the lookup table holds it.
fn suhai_entry(index: usize) -> (e: [u8; 10])
    ensures
        forall|i: int| 0 <= i < 10 ==> e@[i] == #[trigger] table_entry(index as int, 9, false, SUHAI_TABLE_SIZE as int)[i],
{
    if index < SUHAI_TABLE_SIZE {
        let d = digits_of(index, 9);
        compute_entry(&d, false)
    } else {
        [0; 10]
    }
}

/// The entry of the honor group, as the lookup table holds it.
fn jihai_entry(index: usize) -> (e: [u8; 10])
    ensures
        forall|i: int| 0 <= i < 10 ==> e@[i] == #[trigger] table_entry(index as int, 7, true, JIHAI_TABLE_SIZE as int)[i],
{
    if index < JIHAI_TABLE_SIZE {
        let d = digits_of(index, 7);
        compute_entry(&d, true)
    } else {
        [0; 10]
    }
}


proof fn lemma_dist_range(h: Seq<u8>, honor: bool, pos: int, end: int, a: int, b: int, k: int, p: int)
    ensures
        0 <= min_dist(h, honor, pos, end, a, b, k, p) <= INF as int,
    decreases end - pos, 1int,
{
    if pos < end {
        lemma_min_s_range(h, honor, pos, end, a, b, k, p, 0, 0);
        lemma_min_s_range(h, honor, pos, end, a, b, k, p, 0, 1);
        lemma_min_s_range(h, honor, pos, end, a, b, k, p, 1, 0);
        lemma_min_s_range(h, honor, pos, end, a, b, k, p, 1, 1);
    }
}

proof fn lemma_min_s_range(h: Seq<u8>, honor: bool, pos: int, end: int, a: int, b: int, k: int, p: int, t: int, q: int)
    requires
        pos < end,
    ensures
        0 <= min_s(h, honor, pos, end, a, b, k, p, t, q) <= INF as int,
    decreases end - pos, 0int,
{
    if pos >= 0 {
        lemma_dist_range(h, honor, pos + 1, end, b + 0, 0, k - t - 0, p - q);
        lemma_dist_range(h, honor, pos + 1, end, b + 1, 1, k - t - 1, p - q);
        lemma_dist_range(h, honor, pos + 1, end, b + 2, 2, k - t - 2, p - q);
        lemma_dist_range(h, honor, pos + 1, end, b + 3, 3, k - t - 3, p - q);
        lemma_dist_range(h, honor, pos + 1, end, b + 4, 4, k - t - 4, p - q);
    }
}

/// With enough positions left, `k` melds and `p` pairs can always be
/// completed by bringing in at most `3k + 2p` tiles.
proof fn lemma_feasible(h: Seq<u8>, honor: bool, pos: int, end: int, k: int, p: int)
    requires
        0 <= pos <= end,
        0 <= k,
        0 <= p <= 1,
        k + p <= end - pos,
    ensures
        min_dist(h, honor, pos, end, 0, 0, k, p) <= 3 * k + 2 * p,
    decreases end - pos,
{
    if pos < end {
        if k > 0 {
            lemma_feasible(h, honor, pos + 1, end, k - 1, p);
            assert(opt_val(h, honor, pos, end, 0, 0, k, p, 1, 0, 0) <= 3 * k + 2 * p);
        } else if p > 0 {
            lemma_feasible(h, honor, pos + 1, end, k, p - 1);
            assert(opt_val(h, honor, pos, end, 0, 0, k, p, 0, 1, 0) <= 3 * k + 2 * p);
        } else {
            lemma_feasible(h, honor, pos + 1, end, k, p);
            assert(opt_val(h, honor, pos, end, 0, 0, k, p, 0, 0, 0) <= 3 * k + 2 * p);
        }
    }
}

/// Every entry of a table read lies in `0..=14`.
proof fn lemma_table_entry_range(idx: int, n: nat, honor: bool, size: int, i: int)
    requires
        5 <= n,
        0 <= i < 10,
    ensures
        0 <= table_entry(idx, n, honor, size)[i] <= 14,
{
    if idx < size {
        let d = digits5(idx, n);
        lemma_digits5_len(idx, n);
        if i < 5 {
            lemma_feasible(d, honor, 0, n as int, i, 0);
            lemma_dist_range(d, honor, 0, n as int, 0, 0, i, 0);
        } else {
            lemma_feasible(d, honor, 0, n as int, i - 5, 1);
            lemma_dist_range(d, honor, 0, n as int, 0, 0, i - 5, 1);
        }
    }
}

proof fn lemma_digits5_len(idx: int, n: nat)
    ensures
        digits5(idx, n).len() == n,
    decreases n,
{
    if n > 0 {
        lemma_digits5_len(idx / 5, (n - 1) as nat);
    }
}

pub open spec fn ints(a: Seq<u8>) -> Seq<int> {
    Seq::new(a.len(), |i: int| a[i] as int)
}

/// `min_{0 <= k <= n'} l[k] + t[j - k]` over the first `n` splits after
/// the one that puts all `j` melds in `l`.
pub open spec fn np_upto(l: Seq<int>, t: Seq<int>, j: int, n: int) -> int
    decreases n,
{
    if n <= 0 {
        l[j] + t[0]
    } else {
        min2(np_upto(l, t, j, n - 1), l[n - 1] + t[j - (n - 1)])
    }
}

/// The same with the pair: `j` is `5 + melds`, and the pair goes either
/// to `l` or to `t`.
pub open spec fn p_upto(l: Seq<int>, t: Seq<int>, j: int, n: int) -> int
    decreases n,
{
    if n <= 0 {
        min2(l[j] + t[0], l[0] + t[j])
    } else {
        min2(
            min2(p_upto(l, t, j, n - 1), l[5 + n - 1] + t[j - (5 + n - 1)]),
            l[j - (5 + n - 1)] + t[5 + n - 1],
        )
    }
}

/// Min-plus convolution of two groups' entries for up to `m` melds.
pub open spec fn add_group(l: Seq<int>, t: Seq<int>, m: int) -> Seq<int> {
    Seq::new(
        10,
        |i: int|
            if i <= m {
                np_upto(l, t, i, i)
            } else if 5 <= i <= 5 + m {
                p_upto(l, t, i, i - 5)
            } else {
                l[i]
            },
    )
}

proof fn lemma_np_le(l: Seq<int>, t: Seq<int>, j: int, n: int)
    ensures
        np_upto(l, t, j, n) <= l[j] + t[0],
    decreases n,
{
    if n > 0 {
        lemma_np_le(l, t, j, n - 1);
    }
}

proof fn lemma_p_le(l: Seq<int>, t: Seq<int>, j: int, n: int)
    ensures
        p_upto(l, t, j, n) <= l[j] + t[0],
    decreases n,
{
    if n > 0 {
        lemma_p_le(l, t, j, n - 1);
    }
}

proof fn lemma_np_ge(l: Seq<int>, t: Seq<int>, j: int, n: int)
    requires
        forall|i: int| 0 <= i < 10 ==> l[i] >= 0 && t[i] >= 0,
        0 <= n <= j < 5,
    ensures
        np_upto(l, t, j, n) >= 0,
    decreases n,
{
    if n > 0 {
        lemma_np_ge(l, t, j, n - 1);
    }
}

proof fn lemma_p_ge(l: Seq<int>, t: Seq<int>, j: int, n: int)
    requires
        forall|i: int| 0 <= i < 10 ==> l[i] >= 0 && t[i] >= 0,
        5 <= j < 10,
        0 <= n <= j - 5,
    ensures
        p_upto(l, t, j, n) >= 0,
    decreases n,
{
    if n > 0 {
        lemma_p_ge(l, t, j, n - 1);
    }
}

fn np_exec(old: &[u8; 10], tab: &[u8; 10], j: usize) -> (r: u8)
    requires
        j < 5,
        forall|i: int| 0 <= i < 10 ==> old@[i] <= 200,
        forall|i: int| 0 <= i < 10 ==> tab@[i] <= 14,
    ensures
        r == np_upto(ints(old@), ints(tab@), j as int, j as int),
{
    let ghost l = ints(old@);
    let ghost t = ints(tab@);
    let mut sht: u8 = old[j] + tab[0];
    let mut k: usize = 0;
    while k < j
        invariant
            k <= j < 5,
            forall|i: int| 0 <= i < 10 ==> old@[i] <= 200,
        forall|i: int| 0 <= i < 10 ==> tab@[i] <= 14,
            l == ints(old@),
            t == ints(tab@),
            sht == np_upto(l, t, j as int, k as int),
        decreases j - k,
    {
        sht = min_u8(sht, old[k] + tab[j - k]);
        k += 1;
    }
    sht
}

fn p_exec(old: &[u8; 10], tab: &[u8; 10], j: usize) -> (r: u8)
    requires
        5 <= j < 10,
        forall|i: int| 0 <= i < 10 ==> old@[i] <= 200,
        forall|i: int| 0 <= i < 10 ==> tab@[i] <= 14,
    ensures
        r == p_upto(ints(old@), ints(tab@), j as int, j - 5),
{
    let ghost l = ints(old@);
    let ghost t = ints(tab@);
    let mut sht: u8 = min_u8(old[j] + tab[0], old[0] + tab[j]);
    let mut k: usize = 5;
    while k < j
        invariant
            5 <= k <= j < 10,
            forall|i: int| 0 <= i < 10 ==> old@[i] <= 200,
        forall|i: int| 0 <= i < 10 ==> tab@[i] <= 14,
            l == ints(old@),
            t == ints(tab@),
            sht == p_upto(l, t, j as int, k - 5),
        decreases j - k,
    {
        sht = min_u8(min_u8(sht, old[k] + tab[j - k]), old[j - k] + tab[k]);
        k += 1;
    }
    sht
}

/// Folds a suit group, read from the table at `index`, into `lhs`.
pub fn add_suhai(lhs: &mut [u8; 10], index: usize, m: usize)
    requires
        m <= 4,
        forall|i: int| 0 <= i < 10 ==> old(lhs)@[i] <= 200,
    ensures
        ints(final(lhs)@) == add_group(
            ints(old(lhs)@),
            table_entry(index as int, 9, false, SUHAI_TABLE_SIZE as int),
            m as int,
        ),
        forall|i: int| 0 <= i < 10 ==> final(lhs)@[i] <= old(lhs)@[i] + 14,
{
    let tab = suhai_entry(index);
    proof {
        assert forall|i: int| 0 <= i < 10 implies tab@[i] <= 14 by {
            lemma_table_entry_range(index as int, 9, false, SUHAI_TABLE_SIZE as int, i);
        }
        assert(ints(tab@) =~= table_entry(index as int, 9, false, SUHAI_TABLE_SIZE as int));
    }
    add_entry(lhs, &tab, m);
}

/// Folds a group's entry `tab` into `lhs` for up to `m` melds.
fn add_entry(lhs: &mut [u8; 10], tab: &[u8; 10], m: usize)
    requires
        m <= 4,
        forall|i: int| 0 <= i < 10 ==> old(lhs)@[i] <= 200,
        forall|i: int| 0 <= i < 10 ==> tab@[i] <= 14,
    ensures
        ints(final(lhs)@) == add_group(ints(old(lhs)@), ints(tab@), m as int),
        forall|i: int| 0 <= i < 10 ==> final(lhs)@[i] <= old(lhs)@[i] + 14,
{
    let old_lhs: [u8; 10] = *lhs;
    assert(old_lhs@ == old(lhs)@);
    let ghost l = ints(old_lhs@);
    let ghost t = ints(tab@);
    let mut j: usize = 6 + m;
    while j > 5
        invariant
            5 <= j <= 6 + m,
            m <= 4,
            forall|i: int| 0 <= i < 10 ==> old_lhs@[i] <= 200,
            forall|i: int| 0 <= i < 10 ==> tab@[i] <= 14,
            l == ints(old_lhs@),
            t == ints(tab@),
            forall|i: int|
                0 <= i < 10 ==> #[trigger] lhs@[i] == if j <= i <= 5 + m {
                    p_upto(l, t, i, i - 5)
                } else {
                    l[i]
                },
        decreases j,
    {
        j -= 1;
        let v = p_exec(&old_lhs, tab, j);
        lhs[j] = v;
    }
    let mut j: usize = m + 1;
    while j > 0
        invariant
            j <= m + 1,
            m <= 4,
            forall|i: int| 0 <= i < 10 ==> old_lhs@[i] <= 200,
            forall|i: int| 0 <= i < 10 ==> tab@[i] <= 14,
            l == ints(old_lhs@),
            t == ints(tab@),
            forall|i: int|
                0 <= i < 10 ==> #[trigger] lhs@[i] == if j <= i <= m {
                    np_upto(l, t, i, i)
                } else if 5 <= i <= 5 + m {
                    p_upto(l, t, i, i - 5)
                } else {
                    l[i]
                },
        decreases j,
    {
        j -= 1;
        let v = np_exec(&old_lhs, tab, j);
        lhs[j] = v;
    }
    proof {
        assert(ints(lhs@) =~= add_group(l, t, m as int));
        assert forall|i: int| 0 <= i < 10 implies lhs@[i] <= old_lhs@[i] + 14 by {
            if i <= m {
                lemma_np_le(l, t, i, i);
            } else if 5 <= i <= 5 + m {
                lemma_p_le(l, t, i, i - 5);
            }
        }
    }
}

/// Folds the honor group, read from the table at `index`, into entry
/// `5 + m` of `lhs`.
pub fn add_jihai(lhs: &mut [u8; 10], index: usize, m: usize)
    requires
        m <= 4,
        forall|i: int| 0 <= i < 10 ==> old(lhs)@[i] <= 200,
    ensures
        final(lhs)@[5 + m as int] as int == p_upto(
            ints(old(lhs)@),
            table_entry(index as int, 7, true, JIHAI_TABLE_SIZE as int),
            5 + m as int,
            m as int,
        ),
        forall|i: int| 0 <= i < 10 && i != 5 + m ==> final(lhs)@[i] == old(lhs)@[i],
        final(lhs)@[5 + m as int] <= old(lhs)@[5 + m as int] + 14,
{
    let tab = jihai_entry(index);
    proof {
        assert forall|i: int| 0 <= i < 10 implies tab@[i] <= 14 by {
            lemma_table_entry_range(index as int, 7, true, JIHAI_TABLE_SIZE as int, i);
        }
        assert(ints(tab@) =~= table_entry(index as int, 7, true, JIHAI_TABLE_SIZE as int));
    }
    let old_lhs: [u8; 10] = *lhs;
    assert(old_lhs@ == old(lhs)@);
    let v = p_exec(&old_lhs, &tab, 5 + m);
    proof {
        lemma_p_le(ints(old_lhs@), ints(tab@), 5 + m as int, m as int);
    }
    lhs[5 + m] = v;
}


/// Group `g` of a 34-count vector: the three suits, then the honors.
pub open spec fn group(h: Seq<u8>, g: int) -> Seq<u8> {
    if g < 3 {
        h.subrange(9 * g, 9 * g + 9)
    } else {
        h.subrange(27, 34)
    }
}

/// What the lookup tables hold for group `g`.
pub open spec fn group_table_entry(h: Seq<u8>, g: int) -> Seq<int> {
    if g < 3 {
        table_entry(base5(group(h, g)), 9, false, SUHAI_TABLE_SIZE as int)
    } else {
        table_entry(base5(group(h, g)), 7, true, JIHAI_TABLE_SIZE as int)
    }
}

/// Combines the four groups' entries for `m` melds and one pair.
pub open spec fn combine(e0: Seq<int>, e1: Seq<int>, e2: Seq<int>, e3: Seq<int>, m: int) -> int {
    p_upto(add_group(add_group(e0, e1, m), e2, m), e3, 5 + m, m)
}

/// The regular-hand distance as the lookup tables give it.
pub open spec fn table_distance(h: Seq<u8>, m: int) -> int {
    combine(
        group_table_entry(h, 0),
        group_table_entry(h, 1),
        group_table_entry(h, 2),
        group_table_entry(h, 3),
        m,
    )
}

/// The minimal number of tiles to bring in so that the hand holds `m`
/// melds and one pair: the min-plus convolution of the four groups' own
/// minima.
pub open spec fn normal_distance(h: Seq<u8>, m: int) -> int {
    combine(
        group_entry(group(h, 0), false),
        group_entry(group(h, 1), false),
        group_entry(group(h, 2), false),
        group_entry(group(h, 3), true),
        m,
    )
}

/// A hand whose counts are all at most 4 and whose groups all lie inside the
/// lookup tables.
pub open spec fn table_covers(h: Seq<u8>) -> bool {
    &&& h.len() == 34
    &&& forall|i: int| 0 <= i < 34 ==> h[i] <= 4
    &&& base5(group(h, 0)) < SUHAI_TABLE_SIZE
    &&& base5(group(h, 1)) < SUHAI_TABLE_SIZE
    &&& base5(group(h, 2)) < SUHAI_TABLE_SIZE
    &&& base5(group(h, 3)) < JIHAI_TABLE_SIZE
}

proof fn lemma_table_is_group_entry(h: Seq<u8>, g: int)
    requires
        table_covers(h),
        0 <= g < 4,
    ensures
        group_table_entry(h, g) == group_entry(group(h, g), g == 3),
{
    let d = group(h, g);
    assert forall|i: int| 0 <= i < d.len() implies d[i] <= 4 by {
        if g < 3 {
            assert(d[i] == h[9 * g + i]);
        } else {
            assert(d[i] == h[27 + i]);
        }
    }
    lemma_digits5_base5(d);
}

/// Prepares the lookup tables. Their entries are computed when read, so
/// there is nothing to load in advance; callers that prepare the tables
/// before the first lookup can keep doing so.
pub fn ensure_init() {
}

/// The regular shanten number: tiles to bring in for `len_div3` melds and
/// a pair, minus one.
pub fn calc_normal(tiles: &[u8; 34], len_div3: u8) -> (r: i8)
    requires
        len_div3 <= 4,
    ensures
        r == table_distance(tiles@, len_div3 as int) - 1,
        table_covers(tiles@) ==> r == normal_distance(tiles@, len_div3 as int) - 1,
{
    let m = len_div3 as usize;
    let mut ret = suhai_entry(sum_tiles(vstd::slice::slice_subrange(tiles, 0, 9)));
    proof {
        assert forall|i: int| 0 <= i < 10 implies ret@[i] <= 14 by {
            lemma_table_entry_range(base5(group(tiles@, 0)), 9, false, SUHAI_TABLE_SIZE as int, i);
        }
        assert(ints(ret@) =~= group_table_entry(tiles@, 0));
    }
    let ghost l0 = ints(ret@);
    add_suhai(&mut ret, sum_tiles(vstd::slice::slice_subrange(tiles, 9, 18)), m);
    let ghost l1 = ints(ret@);
    add_suhai(&mut ret, sum_tiles(vstd::slice::slice_subrange(tiles, 18, 27)), m);
    let ghost l2 = ints(ret@);
    add_jihai(&mut ret, sum_tiles(vstd::slice::slice_subrange(tiles, 27, 34)), m);
    proof {
        assert(l1 == add_group(l0, group_table_entry(tiles@, 1), m as int));
        assert(l2 == add_group(l1, group_table_entry(tiles@, 2), m as int));
        if table_covers(tiles@) {
            lemma_table_is_group_entry(tiles@, 0);
            lemma_table_is_group_entry(tiles@, 1);
            lemma_table_is_group_entry(tiles@, 2);
            lemma_table_is_group_entry(tiles@, 3);
        }
    }
    (ret[5 + m] as i8) - 1
}


/// Number of tile kinds among the first `n` with at least `c` copies.
pub open spec fn kinds_with(h: Seq<u8>, n: int, c: u8) -> int
    decreases n,
{
    if n <= 0 {
        0
    } else {
        kinds_with(h, n - 1, c) + if h[n - 1] >= c { 1int } else { 0int }
    }
}

/// The seven-pairs shanten number: `6 - pairs + max(7 - kinds, 0)`.
pub open spec fn chitoi_shanten(h: Seq<u8>) -> int {
    let pairs = kinds_with(h, 34, 2);
    let kinds = kinds_with(h, 34, 1);
    7 - pairs + (if kinds < 7 { 7 - kinds } else { 0 }) - 1
}

/// The ids of the thirteen terminals and honors.
pub open spec fn yaochu_ids() -> Seq<int> {
    seq![0, 8, 9, 17, 18, 26, 27, 28, 29, 30, 31, 32, 33]
}

/// Number of the first `n` ids of `ids` whose count in `h` is at least `c`.
pub open spec fn ids_with(h: Seq<u8>, ids: Seq<int>, n: int, c: u8) -> int
    decreases n,
{
    if n <= 0 {
        0
    } else {
        ids_with(h, ids, n - 1, c) + if h[ids[n - 1]] >= c { 1int } else { 0int }
    }
}

/// The thirteen-orphans shanten number: `13 - kinds - (1 if a pair)`.
pub open spec fn kokushi_shanten(h: Seq<u8>) -> int {
    let kinds = ids_with(h, yaochu_ids(), 13, 1);
    let pairs = ids_with(h, yaochu_ids(), 13, 2);
    14 - kinds - (if pairs > 0 { 1int } else { 0int }) - 1
}

proof fn lemma_kinds_with_range(h: Seq<u8>, n: int, c: u8)
    requires
        0 <= n,
    ensures
        0 <= kinds_with(h, n, c) <= n,
    decreases n,
{
    if n > 0 {
        lemma_kinds_with_range(h, n - 1, c);
    }
}

proof fn lemma_ids_with_range(h: Seq<u8>, ids: Seq<int>, n: int, c: u8)
    requires
        0 <= n,
    ensures
        0 <= ids_with(h, ids, n, c) <= n,
    decreases n,
{
    if n > 0 {
        lemma_ids_with_range(h, ids, n - 1, c);
    }
}

/// The seven-pairs shanten number.
pub fn calc_chitoi(tiles: &[u8; 34]) -> (r: i8)
    ensures
        r == chitoi_shanten(tiles@),
{
    let mut pairs: u8 = 0;
    let mut kinds: u8 = 0;
    let mut i: usize = 0;
    while i < 34
        invariant
            i <= 34,
            pairs == kinds_with(tiles@, i as int, 2),
            kinds == kinds_with(tiles@, i as int, 1),
        decreases 34 - i,
    {
        proof {
            lemma_kinds_with_range(tiles@, i as int, 2);
            lemma_kinds_with_range(tiles@, i as int, 1);
        }
        if tiles[i] > 0 {
            kinds += 1;
            if tiles[i] >= 2 {
                pairs += 1;
            }
        }
        i += 1;
    }
    proof {
        lemma_kinds_with_range(tiles@, 34, 2);
        lemma_kinds_with_range(tiles@, 34, 1);
    }
    let redunct = if kinds < 7 {
        (7 - kinds) as i8
    } else {
        0
    };
    7 - pairs as i8 + redunct - 1
}

/// The thirteen-orphans shanten number.
pub fn calc_kokushi(tiles: &[u8; 34]) -> (r: i8)
    ensures
        r == kokushi_shanten(tiles@),
{
    let ids: [usize; 13] = [0, 8, 9, 17, 18, 26, 27, 28, 29, 30, 31, 32, 33];
    proof {
        assert(ids@.map_values(|x: usize| x as int) =~= yaochu_ids());
    }
    let mut pairs: i8 = 0;
    let mut kinds: i8 = 0;
    let mut i: usize = 0;
    while i < 13
        invariant
            i <= 13,
            ids@.map_values(|x: usize| x as int) == yaochu_ids(),
            forall|j: int| 0 <= j < 13 ==> #[trigger] ids@[j] < 34,
            pairs == ids_with(tiles@, yaochu_ids(), i as int, 2),
            kinds == ids_with(tiles@, yaochu_ids(), i as int, 1),
        decreases 13 - i,
    {
        proof {
            lemma_ids_with_range(tiles@, yaochu_ids(), i as int, 2);
            lemma_ids_with_range(tiles@, yaochu_ids(), i as int, 1);
            assert(yaochu_ids()[i as int] == ids@[i as int]);
        }
        let c = tiles[ids[i]];
        if c > 0 {
            kinds += 1;
            if c >= 2 {
                pairs += 1;
            }
        }
        i += 1;
    }
    proof {
        lemma_ids_with_range(tiles@, yaochu_ids(), 13, 1);
    }
    let redunct: i8 = if pairs > 0 {
        1
    } else {
        0
    };
    14 - kinds - redunct - 1
}

/// The shanten number over all three hand forms, as `calc_all` reports it:
/// seven pairs and thirteen orphans only count for a closed hand of 13 or
/// 14 tiles that is not yet tenpai by the regular form.
pub open spec fn all_shanten(h: Seq<u8>, m: int, normal: int) -> int {
    if normal <= 0 || m < 4 {
        normal
    } else {
        let c = min2(normal, chitoi_shanten(h));
        if c > 0 {
            min2(c, kokushi_shanten(h))
        } else {
            c
        }
    }
}

/// The smallest shanten number over the regular form, seven pairs and
/// thirteen orphans.
pub fn calc_all(tiles: &[u8; 34], len_div3: u8) -> (r: i8)
    requires
        len_div3 <= 4,
    ensures
        r == all_shanten(tiles@, len_div3 as int, table_distance(tiles@, len_div3 as int) - 1),
        table_covers(tiles@) ==> r == all_shanten(
            tiles@,
            len_div3 as int,
            normal_distance(tiles@, len_div3 as int) - 1,
        ),
{
    let shanten = calc_normal(tiles, len_div3);
    if shanten <= 0 || len_div3 < 4 {
        return shanten;
    }
    let c = calc_chitoi(tiles);
    let shanten = if c < shanten {
        c
    } else {
        shanten
    };
    if shanten > 0 {
        let k = calc_kokushi(tiles);
        if k < shanten {
            k
        } else {
            shanten
        }
    } else {
        shanten
    }
}


/// One position of a group decomposition: `t` triplets, `q` pairs and `s`
/// sequences starting there.
pub type Choice = (int, int, int);

/// `plan` decomposes positions `pos..end` into exactly `k` melds and `p`
/// pairs, given the `a`, `b` tiles owed by earlier sequences, never using a
/// kind more than four times and starting sequences only where they fit.
pub open spec fn plan_ok(
    h: Seq<u8>,
    honor: bool,
    pos: int,
    end: int,
    a: int,
    b: int,
    k: int,
    p: int,
    plan: Seq<Choice>,
) -> bool
    decreases plan.len(),
{
    if plan.len() == 0 {
        pos >= end && a == 0 && b == 0 && k == 0 && p == 0
    } else {
        let (t, q, s) = plan[0];
        &&& 0 <= pos < end
        &&& 0 <= t <= 1
        &&& 0 <= q <= 1
        &&& 0 <= s <= 4
        &&& !(t > k || q > p || t + s > k || a + 3 * t + 2 * q + s > 4 || (s > 0 && !seq_ok(
            honor,
            pos,
            end,
        )))
        &&& plan_ok(h, honor, pos + 1, end, b + s, s, k - t - s, p - q, plan.drop_first())
    }
}

/// The number of tiles that `plan` needs brought in.
pub open spec fn plan_cost(h: Seq<u8>, pos: int, a: int, b: int, plan: Seq<Choice>) -> int
    decreases plan.len(),
{
    if plan.len() == 0 {
        0
    } else {
        let (t, q, s) = plan[0];
        let w = a + 3 * t + 2 * q + s;
        let have = h[pos] as int;
        (if w > have { w - have } else { 0 }) + plan_cost(h, pos + 1, b + s, s, plan.drop_first())
    }
}

proof fn lemma_plan_cost_nonneg(h: Seq<u8>, pos: int, a: int, b: int, plan: Seq<Choice>)
    ensures
        plan_cost(h, pos, a, b, plan) >= 0,
    decreases plan.len(),
{
    if plan.len() > 0 {
        let (t, q, s) = plan[0];
        lemma_plan_cost_nonneg(h, pos + 1, b + s, s, plan.drop_first());
    }
}

/// No decomposition of a group needs fewer tiles than `min_dist` says.
pub proof fn lemma_min_dist_lower_bound(
    h: Seq<u8>,
    honor: bool,
    pos: int,
    end: int,
    a: int,
    b: int,
    k: int,
    p: int,
    plan: Seq<Choice>,
)
    requires
        plan_ok(h, honor, pos, end, a, b, k, p, plan),
    ensures
        min_dist(h, honor, pos, end, a, b, k, p) <= plan_cost(h, pos, a, b, plan),
    decreases plan.len(),
{
    lemma_plan_cost_nonneg(h, pos, a, b, plan);
    if plan.len() > 0 {
        let (t, q, s) = plan[0];
        let rest = plan.drop_first();
        lemma_min_dist_lower_bound(h, honor, pos + 1, end, b + s, s, k - t - s, p - q, rest);
        lemma_plan_cost_nonneg(h, pos + 1, b + s, s, rest);
        assert(min_dist(h, honor, pos, end, a, b, k, p) <= min_s(h, honor, pos, end, a, b, k, p, t, q));
        assert(min_s(h, honor, pos, end, a, b, k, p, t, q) <= opt_val(h, honor, pos, end, a, b, k, p, t, q, s));
    }
}

spec fn option_at(
    h: Seq<u8>,
    honor: bool,
    pos: int,
    end: int,
    a: int,
    b: int,
    k: int,
    p: int,
    c: Choice,
) -> int {
    opt_val(h, honor, pos, end, a, b, k, p, c.0, c.1, c.2)
}

proof fn lemma_min_s_choice(h: Seq<u8>, honor: bool, pos: int, end: int, a: int, b: int, k: int, p: int, t: int, q: int)
    requires
        0 <= pos < end,
        0 <= t <= 1,
        0 <= q <= 1,
    ensures
        exists|c: Choice|
            0 <= c.0 <= 1 && 0 <= c.1 <= 1 && 0 <= c.2 <= 4 && #[trigger] option_at(h, honor, pos, end, a, b, k, p, c)
                == min_s(h, honor, pos, end, a, b, k, p, t, q),
{
    let ms = min_s(h, honor, pos, end, a, b, k, p, t, q);
    if option_at(h, honor, pos, end, a, b, k, p, (t, q, 0)) == ms {
    } else if option_at(h, honor, pos, end, a, b, k, p, (t, q, 1)) == ms {
    } else if option_at(h, honor, pos, end, a, b, k, p, (t, q, 2)) == ms {
    } else if option_at(h, honor, pos, end, a, b, k, p, (t, q, 3)) == ms {
    } else {
        assert(option_at(h, honor, pos, end, a, b, k, p, (t, q, 4)) == ms);
    }
}

/// The minimum at a position is reached by one of its options.
proof fn lemma_min_dist_choice(h: Seq<u8>, honor: bool, pos: int, end: int, a: int, b: int, k: int, p: int)
    requires
        0 <= pos < end,
    ensures
        exists|c: Choice|
            0 <= c.0 <= 1 && 0 <= c.1 <= 1 && 0 <= c.2 <= 4 && #[trigger] option_at(h, honor, pos, end, a, b, k, p, c)
                == min_dist(h, honor, pos, end, a, b, k, p),
{
    let md = min_dist(h, honor, pos, end, a, b, k, p);
    if min_s(h, honor, pos, end, a, b, k, p, 0, 0) == md {
        lemma_min_s_choice(h, honor, pos, end, a, b, k, p, 0, 0);
    } else if min_s(h, honor, pos, end, a, b, k, p, 0, 1) == md {
        lemma_min_s_choice(h, honor, pos, end, a, b, k, p, 0, 1);
    } else if min_s(h, honor, pos, end, a, b, k, p, 1, 0) == md {
        lemma_min_s_choice(h, honor, pos, end, a, b, k, p, 1, 0);
    } else {
        assert(min_s(h, honor, pos, end, a, b, k, p, 1, 1) == md);
        lemma_min_s_choice(h, honor, pos, end, a, b, k, p, 1, 1);
    }
}

/// Whenever a group can be completed, some decomposition needs exactly
/// `min_dist` tiles.
pub proof fn lemma_min_dist_attained(h: Seq<u8>, honor: bool, pos: int, end: int, a: int, b: int, k: int, p: int)
    requires
        0 <= pos <= end,
        min_dist(h, honor, pos, end, a, b, k, p) < INF as int,
    ensures
        exists|plan: Seq<Choice>|
            plan_ok(h, honor, pos, end, a, b, k, p, plan) && #[trigger] plan_cost(h, pos, a, b, plan) == min_dist(
                h,
                honor,
                pos,
                end,
                a,
                b,
                k,
                p,
            ),
    decreases end - pos,
{
    if pos == end {
        let plan = Seq::<Choice>::empty();
        assert(plan_ok(h, honor, pos, end, a, b, k, p, plan));
        assert(plan_cost(h, pos, a, b, plan) == 0);
    } else {
        lemma_min_dist_choice(h, honor, pos, end, a, b, k, p);
        let c = choose|c: Choice|
            0 <= c.0 <= 1 && 0 <= c.1 <= 1 && 0 <= c.2 <= 4 && #[trigger] option_at(h, honor, pos, end, a, b, k, p, c)
                == min_dist(h, honor, pos, end, a, b, k, p);
        let (t, q, s) = c;
        let md_next = min_dist(h, honor, pos + 1, end, b + s, s, k - t - s, p - q);
        lemma_dist_range(h, honor, pos + 1, end, b + s, s, k - t - s, p - q);
        assert(md_next < INF as int);
        lemma_min_dist_attained(h, honor, pos + 1, end, b + s, s, k - t - s, p - q);
        let rest = choose|plan: Seq<Choice>|
            plan_ok(h, honor, pos + 1, end, b + s, s, k - t - s, p - q, plan) && #[trigger] plan_cost(
                h,
                pos + 1,
                b + s,
                s,
                plan,
            ) == md_next;
        let plan = seq![c] + rest;
        assert(plan.drop_first() =~= rest);
        assert(plan[0] == c);
        assert(plan_ok(h, honor, pos, end, a, b, k, p, plan));
        assert(plan_cost(h, pos, a, b, plan) == min_dist(h, honor, pos, end, a, b, k, p));
    }
}


proof fn lemma_np_each(l: Seq<int>, t: Seq<int>, j: int, n: int, k: int)
    requires
        k == j || 0 <= k < n,
    ensures
        np_upto(l, t, j, n) <= l[k] + t[j - k],
    decreases n,
{
    if n > 0 && k != n - 1 {
        lemma_np_each(l, t, j, n - 1, k);
    }
    if n > 0 && k == n - 1 {
    }
}

proof fn lemma_np_attained(l: Seq<int>, t: Seq<int>, j: int, n: int)
    ensures
        exists|k: int| (k == j || 0 <= k < n) && #[trigger] (l[k] + t[j - k]) == np_upto(l, t, j, n),
    decreases n,
{
    if n <= 0 {
        assert(l[j] + t[j - j] == np_upto(l, t, j, n));
    } else {
        lemma_np_attained(l, t, j, n - 1);
        if np_upto(l, t, j, n) != np_upto(l, t, j, n - 1) {
            assert(l[n - 1] + t[j - (n - 1)] == np_upto(l, t, j, n));
        }
    }
}

proof fn lemma_p_each(l: Seq<int>, t: Seq<int>, jj: int, n: int, kk: int)
    requires
        kk == jj || 0 <= kk < n,
    ensures
        p_upto(l, t, 5 + jj, n) <= l[5 + kk] + t[jj - kk],
        p_upto(l, t, 5 + jj, n) <= l[jj - kk] + t[5 + kk],
    decreases n,
{
    if n > 0 && kk != n - 1 {
        lemma_p_each(l, t, jj, n - 1, kk);
    }
}

proof fn lemma_p_attained(l: Seq<int>, t: Seq<int>, jj: int, n: int)
    ensures
        exists|kk: int|
            (kk == jj || 0 <= kk < n) && (#[trigger] (l[5 + kk] + t[jj - kk]) == p_upto(l, t, 5 + jj, n) || l[jj
                - kk] + t[5 + kk] == p_upto(l, t, 5 + jj, n)),
    decreases n,
{
    if n <= 0 {
        assert(l[5 + jj] + t[jj - jj] == p_upto(l, t, 5 + jj, n) || l[jj - jj] + t[5 + jj] == p_upto(l, t, 5 + jj, n));
    } else {
        lemma_p_attained(l, t, jj, n - 1);
        if p_upto(l, t, 5 + jj, n) != p_upto(l, t, 5 + jj, n - 1) {
            assert(l[5 + (n - 1)] + t[jj - (n - 1)] == p_upto(l, t, 5 + jj, n) || l[jj - (n - 1)] + t[5 + (n - 1)]
                == p_upto(l, t, 5 + jj, n));
        }
    }
}

/// The entries of group `g` of `h`.
pub open spec fn entry_of(h: Seq<u8>, g: int) -> Seq<int> {
    group_entry(group(h, g), g == 3)
}

pub open spec fn group_len(g: int) -> int {
    if g < 3 { 9 } else { 7 }
}

/// A decomposition of a whole hand into `m` melds and one pair: for each
/// group, how many melds and pairs it holds and how.
pub open spec fn hand_plan_ok(h: Seq<u8>, m: int, ks: Seq<int>, ps: Seq<int>, plans: Seq<Seq<Choice>>) -> bool {
    &&& h.len() == 34
    &&& ks.len() == 4 && ps.len() == 4 && plans.len() == 4
    &&& ks[0] + ks[1] + ks[2] + ks[3] == m
    &&& ps[0] + ps[1] + ps[2] + ps[3] == 1
    &&& forall|g: int|
        0 <= g < 4 ==> 0 <= ks[g] && 0 <= ps[g] <= 1 && plan_ok(
            group(h, g),
            g == 3,
            0,
            group_len(g),
            0,
            0,
            ks[g],
            ps[g],
            #[trigger] plans[g],
        )
}

/// The tiles that a whole-hand decomposition needs brought in.
pub open spec fn hand_plan_cost(h: Seq<u8>, plans: Seq<Seq<Choice>>) -> int {
    plan_cost(group(h, 0), 0, 0, 0, plans[0]) + plan_cost(group(h, 1), 0, 0, 0, plans[1]) + plan_cost(
        group(h, 2),
        0,
        0,
        0,
        plans[2],
    ) + plan_cost(group(h, 3), 0, 0, 0, plans[3])
}

proof fn lemma_group_len(h: Seq<u8>, g: int)
    requires
        h.len() == 34,
        0 <= g < 4,
    ensures
        group(h, g).len() == group_len(g),
{
}

/// Entry `k + 5p` of a group is at most the cost of any of its
/// decompositions into `k` melds and `p` pairs.
proof fn lemma_entry_le_plan(h: Seq<u8>, g: int, k: int, p: int, plan: Seq<Choice>)
    requires
        h.len() == 34,
        0 <= g < 4,
        0 <= k <= 4,
        0 <= p <= 1,
        plan_ok(group(h, g), g == 3, 0, group_len(g), 0, 0, k, p, plan),
    ensures
        entry_of(h, g)[k + 5 * p] <= plan_cost(group(h, g), 0, 0, 0, plan),
{
    lemma_group_len(h, g);
    lemma_min_dist_lower_bound(group(h, g), g == 3, 0, group_len(g), 0, 0, k, p, plan);
}

/// Meld counts of a valid plan stay within the group's bounds.
proof fn lemma_plan_counts(
    h: Seq<u8>,
    honor: bool,
    pos: int,
    end: int,
    a: int,
    b: int,
    k: int,
    p: int,
    plan: Seq<Choice>,
)
    requires
        plan_ok(h, honor, pos, end, a, b, k, p, plan),
    ensures
        k >= 0,
        p >= 0,
    decreases plan.len(),
{
    if plan.len() > 0 {
        let (t, q, s) = plan[0];
        lemma_plan_counts(h, honor, pos + 1, end, b + s, s, k - t - s, p - q, plan.drop_first());
    }
}

/// A split of `m` melds and one pair over the four groups.
pub open spec fn split_ok(m: int, ks: Seq<int>, ps: Seq<int>) -> bool {
    &&& ks.len() == 4 && ps.len() == 4
    &&& ks[0] + ks[1] + ks[2] + ks[3] == m
    &&& ps[0] + ps[1] + ps[2] + ps[3] == 1
    &&& 0 <= ks[0] && 0 <= ks[1] && 0 <= ks[2] && 0 <= ks[3]
    &&& 0 <= ps[0] <= 1 && 0 <= ps[1] <= 1 && 0 <= ps[2] <= 1 && 0 <= ps[3] <= 1
}

/// The sum of the four groups' entries that a split selects.
pub open spec fn split_sum(e0: Seq<int>, e1: Seq<int>, e2: Seq<int>, e3: Seq<int>, ks: Seq<int>, ps: Seq<int>) -> int {
    e0[ks[0] + 5 * ps[0]] + e1[ks[1] + 5 * ps[1]] + e2[ks[2] + 5 * ps[2]] + e3[ks[3] + 5 * ps[3]]
}

/// The combination is at most the sum that any split selects.
proof fn lemma_combine_le(
    e0: Seq<int>,
    e1: Seq<int>,
    e2: Seq<int>,
    e3: Seq<int>,
    m: int,
    ks: Seq<int>,
    ps: Seq<int>,
)
    requires
        0 <= m <= 4,
        split_ok(m, ks, ps),
    ensures
        combine(e0, e1, e2, e3, m) <= split_sum(e0, e1, e2, e3, ks, ps),
{
    let k0 = ks[0];
    let k1 = ks[1];
    let k2 = ks[2];
    let k3 = ks[3];
    let m01 = k0 + k1;
    let m012 = m01 + k2;
    let l1 = add_group(e0, e1, m);
    let l2 = add_group(l1, e2, m);
    assert(l1[m01] == np_upto(e0, e1, m01, m01));
    assert(l1[5 + m01] == p_upto(e0, e1, 5 + m01, m01));
    assert(l2[m012] == np_upto(l1, e2, m012, m012));
    assert(l2[5 + m012] == p_upto(l1, e2, 5 + m012, m012));
    if ps[3] == 1 {
        lemma_np_each(e0, e1, m01, m01, k0);
        lemma_np_each(l1, e2, m012, m012, m01);
        lemma_p_each(l2, e3, m, m, k3);
        assert(m - k3 == m012);
    } else if ps[2] == 1 {
        lemma_np_each(e0, e1, m01, m01, k0);
        lemma_p_each(l1, e2, m012, m012, k2);
        lemma_p_each(l2, e3, m, m, m012);
        assert(m012 - k2 == m01);
    } else if ps[1] == 1 {
        lemma_p_each(e0, e1, m01, m01, k1);
        lemma_p_each(l1, e2, m012, m012, m01);
        lemma_p_each(l2, e3, m, m, m012);
        assert(m01 - k1 == k0);
    } else {
        lemma_p_each(e0, e1, m01, m01, k0);
        lemma_p_each(l1, e2, m012, m012, m01);
        lemma_p_each(l2, e3, m, m, m012);
    }
}

proof fn pick_np(l: Seq<int>, t: Seq<int>, j: int) -> (k: int)
    requires
        0 <= j,
    ensures
        0 <= k <= j,
        l[k] + t[j - k] == np_upto(l, t, j, j),
{
    lemma_np_attained(l, t, j, j);
    choose|k: int| (k == j || 0 <= k < j) && #[trigger] (l[k] + t[j - k]) == np_upto(l, t, j, j)
}

/// A split of `5 + jj` between two groups: `k` melds on the side that
/// holds the pair, which is the left one when `left` is set.
proof fn pick_p(l: Seq<int>, t: Seq<int>, jj: int) -> (r: (int, bool))
    requires
        0 <= jj,
    ensures
        0 <= r.0 <= jj,
        r.1 ==> l[5 + r.0] + t[jj - r.0] == p_upto(l, t, 5 + jj, jj),
        !r.1 ==> l[jj - r.0] + t[5 + r.0] == p_upto(l, t, 5 + jj, jj),
{
    lemma_p_attained(l, t, jj, jj);
    let k = choose|kk: int|
        (kk == jj || 0 <= kk < jj) && (#[trigger] (l[5 + kk] + t[jj - kk]) == p_upto(l, t, 5 + jj, jj) || l[jj
            - kk] + t[5 + kk] == p_upto(l, t, 5 + jj, jj));
    (k, l[5 + k] + t[jj - k] == p_upto(l, t, 5 + jj, jj))
}

/// A split of two groups without the pair into `j` melds.
proof fn split2_np(e0: Seq<int>, e1: Seq<int>, m: int, j: int) -> (r: (int, int))
    requires
        0 <= j <= m <= 4,
    ensures
        0 <= r.0 && 0 <= r.1 && r.0 + r.1 == j,
        e0[r.0] + e1[r.1] == add_group(e0, e1, m)[j],
{
    let k = pick_np(e0, e1, j);
    (k, j - k)
}

/// A split of two groups with the pair into `j` melds; `r.2` tells
/// whether the pair is in the first group.
proof fn split2_p(e0: Seq<int>, e1: Seq<int>, m: int, j: int) -> (r: (int, int, bool))
    requires
        0 <= j <= m <= 4,
    ensures
        0 <= r.0 && 0 <= r.1 && r.0 + r.1 == j,
        r.2 ==> e0[5 + r.0] + e1[r.1] == add_group(e0, e1, m)[5 + j],
        !r.2 ==> e0[r.0] + e1[5 + r.1] == add_group(e0, e1, m)[5 + j],
{
    let (k, left) = pick_p(e0, e1, j);
    if left {
        (k, j - k, true)
    } else {
        (j - k, k, false)
    }
}

/// Some split selects exactly the combination.
proof fn combine_split(e0: Seq<int>, e1: Seq<int>, e2: Seq<int>, e3: Seq<int>, m: int) -> (r: (Seq<int>, Seq<int>))
    requires
        0 <= m <= 4,
    ensures
        split_ok(m, r.0, r.1),
        split_sum(e0, e1, e2, e3, r.0, r.1) == combine(e0, e1, e2, e3, m),
{
    let l1 = add_group(e0, e1, m);
    let l2 = add_group(l1, e2, m);
    let (kp, pair_left) = pick_p(l2, e3, m);
    if pair_left {
        let (m012, k3) = (kp, m - kp);
        let (m01, k2, pair01) = split2_p(l1, e2, m, m012);
        if pair01 {
            let (k0, k1, pair0) = split2_p(e0, e1, m, m01);
            if pair0 {
                (seq![k0, k1, k2, k3], seq![1int, 0, 0, 0])
            } else {
                (seq![k0, k1, k2, k3], seq![0int, 1, 0, 0])
            }
        } else {
            let (k0, k1) = split2_np(e0, e1, m, m01);
            (seq![k0, k1, k2, k3], seq![0int, 0, 1, 0])
        }
    } else {
        let (m012, k3) = (m - kp, kp);
        let (m01, k2) = split2_np(l1, e2, m, m012);
        let (k0, k1) = split2_np(e0, e1, m, m01);
        (seq![k0, k1, k2, k3], seq![0int, 0, 0, 1])
    }
}

/// No decomposition of the hand into `m` melds and a pair needs fewer
/// tiles than `normal_distance` says.
pub proof fn lemma_normal_distance_lower_bound(
    h: Seq<u8>,
    m: int,
    ks: Seq<int>,
    ps: Seq<int>,
    plans: Seq<Seq<Choice>>,
)
    requires
        0 <= m <= 4,
        hand_plan_ok(h, m, ks, ps, plans),
    ensures
        normal_distance(h, m) <= hand_plan_cost(h, plans),
{
    assert(plan_ok(group(h, 0), false, 0, 9, 0, 0, ks[0], ps[0], plans[0]));
    assert(plan_ok(group(h, 1), false, 0, 9, 0, 0, ks[1], ps[1], plans[1]));
    assert(plan_ok(group(h, 2), false, 0, 9, 0, 0, ks[2], ps[2], plans[2]));
    assert(plan_ok(group(h, 3), true, 0, 7, 0, 0, ks[3], ps[3], plans[3]));
    lemma_entry_le_plan(h, 0, ks[0], ps[0], plans[0]);
    lemma_entry_le_plan(h, 1, ks[1], ps[1], plans[1]);
    lemma_entry_le_plan(h, 2, ks[2], ps[2], plans[2]);
    lemma_entry_le_plan(h, 3, ks[3], ps[3], plans[3]);
    assert(split_ok(m, ks, ps));
    lemma_combine_le(entry_of(h, 0), entry_of(h, 1), entry_of(h, 2), entry_of(h, 3), m, ks, ps);
}


/// A decomposition of group `g` that needs exactly its entry for `k` melds
/// and `p` pairs, when that entry is finite.
proof fn group_plan(h: Seq<u8>, g: int, k: int, p: int) -> (plan: Seq<Choice>)
    requires
        h.len() == 34,
        0 <= g < 4,
        0 <= k <= 4,
        0 <= p <= 1,
        entry_of(h, g)[k + 5 * p] < INF as int,
    ensures
        plan_ok(group(h, g), g == 3, 0, group_len(g), 0, 0, k, p, plan),
        plan_cost(group(h, g), 0, 0, 0, plan) == entry_of(h, g)[k + 5 * p],
{
    lemma_group_len(h, g);
    let d = group(h, g);
    lemma_min_dist_attained(d, g == 3, 0, group_len(g), 0, 0, k, p);
    choose|plan: Seq<Choice>|
        plan_ok(d, g == 3, 0, group_len(g), 0, 0, k, p, plan) && #[trigger] plan_cost(d, 0, 0, 0, plan)
            == min_dist(d, g == 3, 0, group_len(g), 0, 0, k, p)
}

/// Every entry of a group lies in `0..=INF`; the entry for no meld and no
/// pair is zero, and the first suit alone completes `m` melds and a pair
/// with at most `3m + 2` tiles.
proof fn lemma_entries(h: Seq<u8>, m: int)
    requires
        h.len() == 34,
        0 <= m <= 4,
    ensures
        forall|g: int, i: int| 0 <= g < 4 && 0 <= i < 10 ==> 0 <= #[trigger] entry_of(h, g)[i] <= INF as int,
        forall|g: int| 0 <= g < 4 ==> #[trigger] entry_of(h, g)[0] == 0,
        entry_of(h, 0)[5 + m] <= 3 * m + 2,
{
    assert forall|g: int, i: int| 0 <= g < 4 && 0 <= i < 10 implies 0 <= #[trigger] entry_of(h, g)[i]
        <= INF as int by {
        let d = group(h, g);
        if i < 5 {
            lemma_dist_range(d, g == 3, 0, d.len() as int, 0, 0, i, 0);
        } else {
            lemma_dist_range(d, g == 3, 0, d.len() as int, 0, 0, i - 5, 1);
        }
    }
    assert forall|g: int| 0 <= g < 4 implies #[trigger] entry_of(h, g)[0] == 0 by {
        let d = group(h, g);
        lemma_group_len(h, g);
        lemma_feasible(d, g == 3, 0, d.len() as int, 0, 0);
        lemma_dist_range(d, g == 3, 0, d.len() as int, 0, 0, 0, 0);
    }
    lemma_group_len(h, 0);
    lemma_feasible(group(h, 0), false, 0, 9, m, 1);
}

/// The regular-hand distance is reached: some decomposition of the hand
/// into `m` melds and one pair needs exactly `normal_distance` tiles, and
/// that is never more than `3m + 2`.
pub proof fn lemma_normal_distance_attained(h: Seq<u8>, m: int)
    requires
        h.len() == 34,
        0 <= m <= 4,
    ensures
        normal_distance(h, m) <= 3 * m + 2,
        exists|ks: Seq<int>, ps: Seq<int>, plans: Seq<Seq<Choice>>|
            #[trigger] hand_plan_ok(h, m, ks, ps, plans) && hand_plan_cost(h, plans) == normal_distance(h, m),
{
    let e0 = entry_of(h, 0);
    let e1 = entry_of(h, 1);
    let e2 = entry_of(h, 2);
    let e3 = entry_of(h, 3);
    lemma_entries(h, m);
    let ks0 = seq![m, 0int, 0, 0];
    let ps0 = seq![1int, 0, 0, 0];
    lemma_combine_le(e0, e1, e2, e3, m, ks0, ps0);
    assert(split_sum(e0, e1, e2, e3, ks0, ps0) <= 3 * m + 2) by {
        assert(e1[0] == 0 && e2[0] == 0 && e3[0] == 0);
    }
    let (ks, ps) = combine_split(e0, e1, e2, e3, m);
    let i0 = ks[0] + 5 * ps[0];
    let i1 = ks[1] + 5 * ps[1];
    let i2 = ks[2] + 5 * ps[2];
    let i3 = ks[3] + 5 * ps[3];
    assert(0 <= e0[i0] && 0 <= e1[i1] && 0 <= e2[i2] && 0 <= e3[i3]);
    let p0 = group_plan(h, 0, ks[0], ps[0]);
    let p1 = group_plan(h, 1, ks[1], ps[1]);
    let p2 = group_plan(h, 2, ks[2], ps[2]);
    let p3 = group_plan(h, 3, ks[3], ps[3]);
    let plans = seq![p0, p1, p2, p3];
    assert forall|g: int| 0 <= g < 4 implies 0 <= ks[g] && 0 <= ps[g] <= 1 && plan_ok(
        group(h, g),
        g == 3,
        0,
        group_len(g),
        0,
        0,
        ks[g],
        ps[g],
        #[trigger] plans[g],
    ) by {
        if g == 0 {
        } else if g == 1 {
        } else if g == 2 {
        } else {
        }
    }
    assert(hand_plan_ok(h, m, ks, ps, plans));
    assert(hand_plan_cost(h, plans) == normal_distance(h, m));
}

} // verus!
