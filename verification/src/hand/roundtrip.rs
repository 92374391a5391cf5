//! Reading back what `tiles_to_string` writes gives the counts again.

use super::{
    suit_kind, HandError,
    digit_char, digit_index, drain_from, honor_body, is_suit_byte, join_sp, merge_aka, parse_run, parse_step,
    rep, spec_hand, spec_hand_with_aka, spec_tiles_to_string, hand_fits, suit_body, suit_char, suit_part, ParseState,
};
use vstd::prelude::*;

verus! {

/// The parser run on `bytes` from the state `st`.
pub open spec fn parse_from(st: ParseState, bytes: Seq<u8>) -> ParseState
    decreases bytes.len(),
{
    if bytes.len() == 0 {
        st
    } else {
        parse_step(parse_from(st, bytes.drop_last()), bytes.last())
    }
}

pub open spec fn start_state() -> ParseState {
    (Seq::new(37, |i: int| 0), Seq::empty(), None)
}

pub(crate) proof fn lemma_run_is_from(bytes: Seq<u8>)
    ensures
        parse_run(bytes) == parse_from(start_state(), bytes),
    decreases bytes.len(),
{
    if bytes.len() > 0 {
        lemma_run_is_from(bytes.drop_last());
    }
}

pub(crate) proof fn lemma_from_append(st: ParseState, a: Seq<u8>, b: Seq<u8>)
    ensures
        parse_from(st, a + b) == parse_from(parse_from(st, a), b),
    decreases b.len(),
{
    if b.len() == 0 {
        assert(a + b =~= a);
    } else {
        assert((a + b).drop_last() =~= a + b.drop_last());
        lemma_from_append(st, a, b.drop_last());
    }
}

/// The bytes of ASCII characters.
pub open spec fn to_bytes(cs: Seq<char>) -> Seq<u8> {
    cs.map_values(|c: char| c as u8)
}

/// The digit values of digit characters.
pub open spec fn digit_values(cs: Seq<char>) -> Seq<int> {
    cs.map_values(|c: char| (c as u8) - 48)
}

pub open spec fn all_digits(cs: Seq<char>) -> bool {
    forall|i: int| 0 <= i < cs.len() ==> '0' <= #[trigger] cs[i] <= '9'
}

/// Digits are pushed on the stack.
proof fn lemma_from_digits(c: Seq<int>, stk: Seq<int>, cs: Seq<char>)
    requires
        all_digits(cs),
    ensures
        parse_from((c, stk, None), to_bytes(cs)) == (c, stk + digit_values(cs), None::<u8>),
    decreases cs.len(),
{
    if cs.len() == 0 {
        assert(stk + digit_values(cs) =~= stk);
    } else {
        assert(to_bytes(cs).drop_last() =~= to_bytes(cs.drop_last()));
        lemma_from_digits(c, stk, cs.drop_last());
        assert(stk + digit_values(cs) =~= (stk + digit_values(cs.drop_last())).push((cs.last() as u8) - 48));
    }
}

proof fn lemma_digit_char(d: int)
    requires
        0 <= d <= 9,
    ensures
        (digit_char(d) as u8) == 48 + d,
        '0' <= digit_char(d) <= '9',
{
}

/// How many of the digits `ds[..n]` count toward index `j` under `suit`.
pub open spec fn tally(ds: Seq<int>, suit: u8, j: int, n: int) -> int
    decreases n,
{
    if n <= 0 {
        0
    } else {
        tally(ds, suit, j, n - 1) + if digit_index(ds[n - 1], suit) == j {
            1int
        } else {
            0
        }
    }
}

pub open spec fn tally_all(ds: Seq<int>, suit: u8, j: int) -> int {
    tally(ds, suit, j, ds.len() as int)
}

pub open spec fn no_zero(ds: Seq<int>) -> bool {
    forall|i: int| 0 <= i < ds.len() ==> #[trigger] ds[i] != 0
}

/// Draining the stack adds each digit to its count.
proof fn lemma_drain(c: Seq<int>, ds: Seq<int>, i: int, suit: u8)
    requires
        0 <= i <= ds.len(),
        c.len() == 37,
        forall|k: int| 0 <= k < ds.len() ==> 0 <= #[trigger] ds[k] <= 9,
        suit != 122 || no_zero(ds),
    ensures
        drain_from(c, ds, i, suit) == (
            Seq::new(c.len(), |j: int| c[j] + tally_all(ds, suit, j) - tally(ds, suit, j, i)),
            false,
        ),
    decreases ds.len() - i,
{
    if i == ds.len() {
        assert(Seq::new(c.len(), |j: int| c[j] + tally_all(ds, suit, j) - tally(ds, suit, j, i)) =~= c);
    } else {
        let k = digit_index(ds[i], suit);
        assert(0 <= k < 37);
        let c1 = c.update(k, c[k] + 1);
        lemma_drain(c1, ds, i + 1, suit);
        assert(Seq::new(c1.len(), |j: int| c1[j] + tally_all(ds, suit, j) - tally(ds, suit, j, i + 1)) =~= Seq::new(
            c.len(),
            |j: int| c[j] + tally_all(ds, suit, j) - tally(ds, suit, j, i),
        ));
    }
}

proof fn lemma_tally_concat(a: Seq<int>, b: Seq<int>, suit: u8, j: int, n: int)
    requires
        0 <= n <= b.len(),
    ensures
        tally(a + b, suit, j, a.len() + n) == tally_all(a, suit, j) + tally(b, suit, j, n),
    decreases n,
{
    if n == 0 {
        assert forall|m: int| 0 <= m <= a.len() implies #[trigger] tally(a + b, suit, j, m) == tally(a, suit, j, m) by {
            lemma_tally_prefix(a, b, suit, j, m);
        }
    } else {
        lemma_tally_concat(a, b, suit, j, n - 1);
        assert((a + b)[a.len() + n - 1] == b[n - 1]);
    }
}

proof fn lemma_tally_prefix(a: Seq<int>, b: Seq<int>, suit: u8, j: int, m: int)
    requires
        0 <= m <= a.len(),
    ensures
        tally(a + b, suit, j, m) == tally(a, suit, j, m),
    decreases m,
{
    if m > 0 {
        lemma_tally_prefix(a, b, suit, j, m - 1);
        assert((a + b)[m - 1] == a[m - 1]);
    }
}

/// `c` copies of the digit `d`.
proof fn lemma_tally_rep(d: int, c: int, suit: u8, j: int, n: int)
    requires
        0 <= n <= c,
    ensures
        tally(Seq::new(c as nat, |k: int| d), suit, j, n) == if digit_index(d, suit) == j {
            n
        } else {
            0
        },
    decreases n,
{
    if n > 0 {
        lemma_tally_rep(d, c, suit, j, n - 1);
    }
}

pub open spec fn letter(kind: int) -> u8 {
    suit_char(kind) as u8
}

/// What the digits of suit `kind` for the numbers up to `n` add to count
/// `j`: each number its count, except that a red five moves one five to its
/// own count.
pub open spec fn expected_suit(t: Seq<u8>, kind: int, aka: bool, j: int, n: int) -> int {
    if kind * 9 <= j < kind * 9 + n {
        if j == kind * 9 + 4 && aka && t[j] > 0 {
            t[j] - 1
        } else {
            t[j] as int
        }
    } else if j == 34 + kind && n >= 5 && aka && t[kind * 9 + 4] > 0 {
        1
    } else {
        0
    }
}

proof fn lemma_letter(kind: int)
    requires
        0 <= kind < 3,
    ensures
        is_suit_byte(letter(kind)),
        letter(kind) != 122,
        forall|d: int| #[trigger] digit_index(d, letter(kind)) == if d == 0 { 34 + kind } else { kind * 9 + d - 1 },
{
    assert('m' as u8 == 109);
    assert('p' as u8 == 112);
    assert('s' as u8 == 115);
}

proof fn lemma_rep_digits(d: int, c: int)
    requires
        0 <= d <= 9,
        0 <= c,
    ensures
        digit_values(rep(digit_char(d), c)) =~= Seq::new(c as nat, |k: int| d),
        all_digits(rep(digit_char(d), c)),
{
    lemma_digit_char(d);
}

proof fn lemma_body(t: Seq<u8>, kind: int, aka: bool, j: int, n: int)
    requires
        t.len() == 34,
        0 <= kind < 3,
        0 <= n <= 9,
    ensures
        tally_all(digit_values(suit_body(t, kind, aka, n)), letter(kind), j) == expected_suit(t, kind, aka, j, n),
        all_digits(suit_body(t, kind, aka, n)),
        forall|k: int|
            0 <= k < suit_body(t, kind, aka, n).len() ==> 0 <= #[trigger] digit_values(suit_body(t, kind, aka, n))[k]
                <= 9,
        suit_body(t, kind, aka, n).len() == 0 ==> forall|m: int| kind * 9 <= m < kind * 9 + n ==> t[m] == 0,
    decreases n,
{
    lemma_letter(kind);
    if n > 0 {
        lemma_body(t, kind, aka, j, n - 1);
        let prev = suit_body(t, kind, aka, n - 1);
        let c = t[kind * 9 + n - 1] as int;
        let piece = if c == 0 {
            Seq::<char>::empty()
        } else if n == 5 && aka {
            seq!['0'] + rep('5', c - 1)
        } else {
            rep(digit_char(n), c)
        };
        assert(suit_body(t, kind, aka, n) == prev + piece);
        assert(digit_values(prev + piece) =~= digit_values(prev) + digit_values(piece));
        let pd = digit_values(piece);
        let dp = digit_values(prev);
        lemma_tally_concat(dp, pd, letter(kind), j, pd.len() as int);
        assert(tally_all(dp + pd, letter(kind), j) == tally_all(dp, letter(kind), j) + tally_all(pd, letter(kind), j));
        let here = kind * 9 + n - 1;
        if c == 0 {
            assert(pd.len() == 0);
            assert(tally_all(pd, letter(kind), j) == 0);
            assert(expected_suit(t, kind, aka, j, n) == expected_suit(t, kind, aka, j, n - 1));
        } else if n == 5 && aka {
            lemma_rep_digits(5, c - 1);
            lemma_digit_char(0);
            lemma_digit_char(5);
            assert(rep('5', c - 1) == rep(digit_char(5), c - 1));
            assert(digit_values(seq!['0']) =~= seq![0int]);
            assert(pd =~= seq![0int] + Seq::new((c - 1) as nat, |k: int| 5int));
            lemma_tally_concat(seq![0int], Seq::new((c - 1) as nat, |k: int| 5int), letter(kind), j, c - 1);
            lemma_tally_rep(5, c - 1, letter(kind), j, c - 1);
            assert(tally(seq![0int], letter(kind), j, 0) == 0);
            assert(seq![0int][0] == 0);
            assert(tally_all(seq![0int], letter(kind), j) == if j == 34 + kind { 1int } else { 0 });
            assert(tally_all(pd, letter(kind), j) == (if j == 34 + kind { 1int } else { 0 }) + (if j == here {
                c - 1
            } else {
                0
            }));
            assert(all_digits(piece));
        } else {
            lemma_rep_digits(n, c);
            lemma_tally_rep(n, c, letter(kind), j, c);
            assert(tally_all(pd, letter(kind), j) == if j == here { c } else { 0 });
        }
        assert(all_digits(prev + piece));
        assert forall|k: int|
            0 <= k < (prev + piece).len() implies 0 <= #[trigger] digit_values(prev + piece)[k] <= 9 by {
            if k < prev.len() {
                assert(digit_values(prev + piece)[k] == digit_values(prev)[k]);
            } else {
                assert((prev + piece)[k] == piece[k - prev.len()]);
            }
        }
    }
}

pub open spec fn clean(c: Seq<int>) -> ParseState {
    (c, Seq::empty(), None)
}

pub open spec fn add_suit(c: Seq<int>, t: Seq<u8>, kind: int, aka: bool) -> Seq<int> {
    Seq::new(37, |j: int| c[j] + expected_suit(t, kind, aka, j, 9))
}

pub open spec fn ascii_chars(cs: Seq<char>) -> bool {
    forall|i: int| 0 <= i < cs.len() ==> '\0' <= #[trigger] cs[i] <= '\u{7f}'
}

proof fn lemma_suit_part(c: Seq<int>, t: Seq<u8>, kind: int, aka: bool)
    requires
        c.len() == 37,
        t.len() == 34,
        0 <= kind < 3,
    ensures
        parse_from(clean(c), to_bytes(suit_part(t, kind, aka))) == clean(add_suit(c, t, kind, aka)),
        ascii_chars(suit_part(t, kind, aka)),
{
    let body = suit_body(t, kind, aka, 9);
    lemma_letter(kind);
    assert forall|j: int| #[trigger] tally_all(digit_values(body), letter(kind), j) == expected_suit(t, kind, aka, j, 9) by {
        lemma_body(t, kind, aka, j, 9);
    }
    lemma_body(t, kind, aka, 0, 9);
    let dv = digit_values(body);
    if body.len() == 0 {
        assert(add_suit(c, t, kind, aka) =~= c);
        assert(to_bytes(body) =~= Seq::<u8>::empty());
    } else {
        let ch = suit_char(kind);
        assert(suit_part(t, kind, aka) == body.push(ch));
        assert(to_bytes(body.push(ch)) =~= to_bytes(body).push(letter(kind)));
        assert(to_bytes(body).push(letter(kind)).drop_last() =~= to_bytes(body));
        lemma_from_digits(c, Seq::empty(), body);
        assert(Seq::<int>::empty() + dv =~= dv);
        lemma_drain(c, dv, 0, letter(kind));
        assert(parse_from(clean(c), to_bytes(body)) == (c, dv, None::<u8>));
        assert(parse_from(clean(c), to_bytes(body).push(letter(kind))) == parse_step((c, dv, None::<u8>), letter(kind)));
        assert(Seq::new(c.len(), |j: int| c[j] + tally_all(dv, letter(kind), j) - tally(dv, letter(kind), j, 0))
            =~= add_suit(c, t, kind, aka));
        assert forall|i: int| 0 <= i < body.push(ch).len() implies '\0' <= #[trigger] body.push(ch)[i] <= '\u{7f}' by {
            if i < body.len() {
                assert(body.push(ch)[i] == body[i]);
            }
        }
    }
}

pub open spec fn expected_honor(t: Seq<u8>, j: int, n: int) -> int {
    if 27 <= j < 27 + n {
        t[j] as int
    } else {
        0
    }
}

proof fn lemma_honor(t: Seq<u8>, j: int, n: int)
    requires
        t.len() == 34,
        0 <= n <= 7,
    ensures
        tally_all(digit_values(honor_body(t, n)), 122, j) == expected_honor(t, j, n),
        all_digits(honor_body(t, n)),
        forall|k: int|
            0 <= k < honor_body(t, n).len() ==> 1 <= #[trigger] digit_values(honor_body(t, n))[k] <= 9,
        honor_body(t, n).len() == 0 ==> forall|m: int| 27 <= m < 27 + n ==> t[m] == 0,
    decreases n,
{
    if n > 0 {
        lemma_honor(t, j, n - 1);
        let prev = honor_body(t, n - 1);
        let c = t[27 + n - 1] as int;
        let piece = rep(digit_char(n), c);
        assert(honor_body(t, n) == prev + piece);
        assert(digit_values(prev + piece) =~= digit_values(prev) + digit_values(piece));
        lemma_rep_digits(n, c);
        let pd = digit_values(piece);
        lemma_tally_concat(digit_values(prev), pd, 122, j, pd.len() as int);
        lemma_tally_rep(n, c, 122, j, c);
        assert(digit_index(n, 122) == 26 + n);
        assert(all_digits(prev + piece));
        assert forall|k: int|
            0 <= k < (prev + piece).len() implies 1 <= #[trigger] digit_values(prev + piece)[k] <= 9 by {
            if k < prev.len() {
                assert(digit_values(prev + piece)[k] == digit_values(prev)[k]);
            } else {
                assert((prev + piece)[k] == piece[k - prev.len()]);
            }
        }
    }
}

proof fn lemma_join(c0: Seq<int>, acc: Seq<char>, p: Seq<char>, c1: Seq<int>, c2: Seq<int>)
    requires
        parse_from(clean(c0), to_bytes(acc)) == clean(c1),
        parse_from(clean(c1), to_bytes(p)) == clean(c2),
        ascii_chars(acc),
        ascii_chars(p),
    ensures
        parse_from(clean(c0), to_bytes(join_sp(acc, p))) == clean(c2),
        ascii_chars(join_sp(acc, p)),
{
    if p.len() == 0 {
        assert(to_bytes(p) =~= Seq::<u8>::empty());
    } else if acc.len() == 0 {
        assert(to_bytes(acc) =~= Seq::<u8>::empty());
    } else {
        let sp = seq![' '];
        assert(to_bytes(acc + sp + p) =~= to_bytes(acc) + to_bytes(sp) + to_bytes(p));
        assert(to_bytes(sp) =~= seq![32u8]);
        lemma_from_append(clean(c0), to_bytes(acc) + to_bytes(sp), to_bytes(p));
        lemma_from_append(clean(c0), to_bytes(acc), to_bytes(sp));
        assert(seq![32u8].drop_last() =~= Seq::<u8>::empty());
        assert(parse_from(clean(c1), Seq::<u8>::empty()) == clean(c1));
        assert(seq![32u8].last() == 32u8);
        assert(parse_from(clean(c1), seq![32u8]) == parse_step(clean(c1), 32u8));
        assert(parse_from(clean(c1), seq![32u8]) == clean(c1));
        assert(join_sp(acc, p) == acc + sp + p);
        assert forall|i: int| 0 <= i < (acc + sp + p).len() implies '\0' <= #[trigger] (acc + sp + p)[i] <= '\u{7f}' by {
            if i < acc.len() {
                assert((acc + sp + p)[i] == acc[i]);
            } else if i == acc.len() {
            } else {
                assert((acc + sp + p)[i] == p[i - acc.len() - 1]);
            }
        }
    }
}

pub open spec fn all_counts(t: Seq<u8>, aka: Seq<bool>, j: int) -> int {
    expected_suit(t, 0, aka[0], j, 9) + expected_suit(t, 1, aka[1], j, 9) + expected_suit(t, 2, aka[2], j, 9)
        + expected_honor(t, j, 7)
}

/// The whole text reads back as the counts of every part.
proof fn lemma_parse_text(t: Seq<u8>, aka: Seq<bool>)
    requires
        t.len() == 34,
        aka.len() == 3,
    ensures
        parse_from(start_state(), to_bytes(spec_tiles_to_string(t, aka))) == clean(
            Seq::new(37, |j: int| all_counts(t, aka, j)),
        ),
        ascii_chars(spec_tiles_to_string(t, aka)),
{
    let z = Seq::new(37, |i: int| 0int);
    assert(start_state() == clean(z));
    let pm = suit_part(t, 0, aka[0]);
    let pp = suit_part(t, 1, aka[1]);
    let ps = suit_part(t, 2, aka[2]);
    let c1 = add_suit(z, t, 0, aka[0]);
    let c2 = add_suit(c1, t, 1, aka[1]);
    let c3 = add_suit(c2, t, 2, aka[2]);
    lemma_suit_part(z, t, 0, aka[0]);
    lemma_suit_part(c1, t, 1, aka[1]);
    lemma_suit_part(c2, t, 2, aka[2]);
    lemma_join(z, pm, pp, c1, c2);
    lemma_join(z, join_sp(pm, pp), ps, c2, c3);
    let suhai = join_sp(join_sp(pm, pp), ps);
    let jihai = honor_body(t, 7);
    let fin = Seq::new(37, |j: int| all_counts(t, aka, j));
    assert forall|j: int| #[trigger] tally_all(digit_values(jihai), 122, j) == expected_honor(t, j, 7) by {
        lemma_honor(t, j, 7);
    }
    lemma_honor(t, 0, 7);
    if jihai.len() == 0 {
        assert forall|j: int| 0 <= j < 37 implies expected_honor(t, j, 7) == 0 by {}
        assert(c3 =~= fin);
    } else {
        let dv = digit_values(jihai);
        let full = suhai + seq![' '] + jihai + seq!['z'];
        assert(spec_tiles_to_string(t, aka) == full);
        assert(to_bytes(full) =~= to_bytes(suhai) + seq![32u8] + to_bytes(jihai) + seq![122u8]);
        lemma_from_append(clean(z), to_bytes(suhai) + seq![32u8] + to_bytes(jihai), seq![122u8]);
        lemma_from_append(clean(z), to_bytes(suhai) + seq![32u8], to_bytes(jihai));
        lemma_from_append(clean(z), to_bytes(suhai), seq![32u8]);
        assert(parse_from(clean(c3), Seq::<u8>::empty()) == clean(c3));
        assert(seq![32u8].drop_last() =~= Seq::<u8>::empty());
        assert(parse_from(clean(c3), seq![32u8]) == clean(c3));
        lemma_from_digits(c3, Seq::empty(), jihai);
        assert(Seq::<int>::empty() + dv =~= dv);
        let mid = (c3, dv, None::<u8>);
        assert(parse_from(mid, Seq::<u8>::empty()) == mid);
        assert(seq![122u8].drop_last() =~= Seq::<u8>::empty());
        assert(parse_from(mid, seq![122u8]) == parse_step(mid, 122u8));
        assert forall|k: int| 0 <= k < dv.len() implies #[trigger] dv[k] != 0 by {}
        lemma_drain(c3, dv, 0, 122u8);
        assert(Seq::new(c3.len(), |j: int| c3[j] + tally_all(dv, 122u8, j) - tally(dv, 122u8, j, 0)) =~= fin);
        assert forall|i: int| 0 <= i < full.len() implies '\0' <= #[trigger] full[i] <= '\u{7f}' by {
            if i < suhai.len() {
                assert(full[i] == suhai[i]);
            } else if i == suhai.len() {
            } else if i < suhai.len() + 1 + jihai.len() {
                assert(full[i] == jihai[i - suhai.len() - 1]);
            } else {
            }
        }
    }
}

/// Reading back the text that `tiles_to_string` writes gives the counts
/// again, whatever the red fives.
pub proof fn lemma_tiles_to_string_roundtrip(s: &str, t: Seq<u8>, aka: Seq<bool>)
    requires
        t.len() == 34,
        aka.len() == 3,
        s@ == spec_tiles_to_string(t, aka),
    ensures
        spec_hand(s) == Ok::<Seq<int>, HandError>(Seq::new(34, |i: int| t[i] as int)),
{
    broadcast use vstd::string::is_ascii_spec_bytes;

    lemma_parse_text(t, aka);
    assert(vstd::string::is_ascii(s));
    let bytes = vstd::string::StringSliceAdditionalSpecFns::spec_bytes(s);
    assert(bytes =~= to_bytes(s@));
    lemma_run_is_from(bytes);
    let fin = Seq::new(37, |j: int| all_counts(t, aka, j));
    assert(spec_hand_with_aka(s) == Ok::<Seq<int>, HandError>(fin));
    assert(merge_aka(fin) =~= Seq::new(34, |i: int| t[i] as int));
}

/// Whether `tiles_to_string` writes the five of suit `k` as a red five:
/// when red fives are asked for that suit and it has a five at all.
pub open spec fn writes_red(t: Seq<u8>, aka: Seq<bool>, k: int) -> bool {
    aka[k] && t[9 * k + 4] > 0
}

/// The 37 counts that the text of `t` and `aka` reads back as: one red
/// five at 34, 35, 36 for each suit written with one, taken from that
/// suit's plain fives; every other count as in `t`.
pub open spec fn counts_with_red(t: Seq<u8>, aka: Seq<bool>) -> Seq<int> {
    Seq::new(
        37,
        |j: int|
            if j >= 34 {
                if writes_red(t, aka, j - 34) { 1int } else { 0int }
            } else if j % 9 == 4 && j < 27 && writes_red(t, aka, j / 9) {
                t[j] - 1
            } else {
                t[j] as int
            },
    )
}

/// Reading back with red fives the text that `tiles_to_string` writes
/// gives each suit's red five where one was written, and every other
/// count as given.
pub proof fn lemma_tiles_to_string_roundtrip_aka(s: &str, t: Seq<u8>, aka: Seq<bool>)
    requires
        t.len() == 34,
        aka.len() == 3,
        s@ == spec_tiles_to_string(t, aka),
    ensures
        spec_hand_with_aka(s) == Ok::<Seq<int>, HandError>(counts_with_red(t, aka)),
{
    broadcast use vstd::string::is_ascii_spec_bytes;

    lemma_parse_text(t, aka);
    assert(vstd::string::is_ascii(s));
    let bytes = vstd::string::StringSliceAdditionalSpecFns::spec_bytes(s);
    assert(bytes =~= to_bytes(s@));
    lemma_run_is_from(bytes);
    let fin = Seq::new(37, |j: int| all_counts(t, aka, j));
    assert(fin =~= counts_with_red(t, aka));
}

/// The text that `tiles_to_string` writes can be read back by `hand` and
/// `hand_with_aka`: it meets their preconditions.
pub proof fn lemma_tiles_to_string_readable(s: &str, t: Seq<u8>, aka: Seq<bool>)
    requires
        t.len() == 34,
        aka.len() == 3,
        s@ == spec_tiles_to_string(t, aka),
    ensures
        vstd::string::is_ascii(s),
        hand_fits(s),
        spec_hand_with_aka(s) matches Ok(c) ==> c[4] + c[34] <= 255 && c[13] + c[35] <= 255 && c[22] + c[36]
            <= 255,
{
    broadcast use vstd::string::is_ascii_spec_bytes;

    lemma_tiles_to_string_roundtrip_aka(s, t, aka);
    lemma_parse_text(t, aka);
    assert(vstd::string::is_ascii(s));
    let bytes = vstd::string::StringSliceAdditionalSpecFns::spec_bytes(s);
    assert(bytes =~= to_bytes(s@));
    lemma_run_is_from(bytes);
    let c = counts_with_red(t, aka);
    assert forall|i: int| 0 <= i < 37 implies #[trigger] parse_run(bytes).0[i] <= 255 by {
        assert(parse_run(bytes).0 == c);
    }
}

} // verus!
