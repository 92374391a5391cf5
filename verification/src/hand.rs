//! Hand format conversions, mostly for tests and debugging.
//!
//! The strings here use the tenhou.net/2 tile notation (like `0m 123z`),
//! not the mjai one (like `5mr ESW`): digits followed by a suit letter, `0`
//! standing for the red five.

pub mod join;
pub mod roundtrip;

use crate::tile::Tile;
use crate::vec_ops::vec_add_assign;
use vstd::prelude::*;

verus! {

/// Why a hand string was refused.
#[derive(Debug, Clone, Copy, PartialEq, Eq)]
pub enum HandError {
    /// The string holds a non-ASCII character.
    NonAscii,
    /// The byte is neither a digit, a suit letter nor white space, or it is
    /// `z` closing a `0`.
    UnexpectedByte(u8),
}

/// Parser state: the 37 counts, the digits waiting for their suit letter,
/// and the byte that stopped the parse, if any.
pub type ParseState = (Seq<int>, Seq<int>, Option<u8>);

pub open spec fn suit_kind(suit: u8) -> int {
    if suit == 109 {
        0
    } else if suit == 112 {
        1
    } else if suit == 115 {
        2
    } else {
        3
    }
}

/// The count index that digit `t` names under the suit letter `suit`.
pub open spec fn digit_index(t: int, suit: u8) -> int {
    if t == 0 {
        if suit == 109 {
            34
        } else if suit == 112 {
            35
        } else {
            36
        }
    } else {
        suit_kind(suit) * 9 + t - 1
    }
}

pub open spec fn is_suit_byte(b: u8) -> bool {
    b == 109 || b == 112 || b == 115 || b == 122
}

/// Counts the digits `stack[i..]` under `suit`; a `0` under `z` stops it.
pub open spec fn drain_from(counts: Seq<int>, stack: Seq<int>, i: int, suit: u8) -> (Seq<int>, bool)
    decreases stack.len() - i,
{
    if i >= stack.len() || i < 0 {
        (counts, false)
    } else if stack[i] == 0 && suit == 122 {
        (counts, true)
    } else {
        let j = digit_index(stack[i], suit);
        drain_from(counts.update(j, counts[j] + 1), stack, i + 1, suit)
    }
}

pub open spec fn parse_step(st: ParseState, b: u8) -> ParseState {
    if st.2 is Some {
        st
    } else if 48 <= b <= 57 {
        (st.0, st.1.push(b - 48), None)
    } else if is_suit_byte(b) {
        let (c, bad) = drain_from(st.0, st.1, 0, b);
        (c, Seq::empty(), if bad { Some(b) } else { None })
    } else if b == 32 || b == 9 || b == 10 {
        st
    } else {
        (st.0, st.1, Some(b))
    }
}

pub open spec fn parse_run(bytes: Seq<u8>) -> ParseState
    decreases bytes.len(),
{
    if bytes.len() == 0 {
        (Seq::new(37, |i: int| 0), Seq::empty(), None)
    } else {
        parse_step(parse_run(bytes.drop_last()), bytes.last())
    }
}

/// What `hand_with_aka` gives for `s`.
pub open spec fn spec_hand_with_aka(s: &str) -> Result<Seq<int>, HandError> {
    if !vstd::string::is_ascii(s) {
        Err(HandError::NonAscii)
    } else {
        let st = parse_run(vstd::string::StringSliceAdditionalSpecFns::spec_bytes(s));
        match st.2 {
            Some(b) => Err(HandError::UnexpectedByte(b)),
            None => Ok(st.0),
        }
    }
}

/// No count goes past 255 while `s` is read.
pub open spec fn hand_fits(s: &str) -> bool {
    forall|i: int| 0 <= i < 37 ==> #[trigger] parse_run(vstd::string::StringSliceAdditionalSpecFns::spec_bytes(s)).0[i] <= 255
}

spec fn stack_ok(stack: Seq<int>) -> bool {
    forall|i: int| 0 <= i < stack.len() ==> 0 <= #[trigger] stack[i] <= 9
}

proof fn lemma_drain_mono(counts: Seq<int>, stack: Seq<int>, i: int, suit: u8)
    requires
        counts.len() == 37,
        stack_ok(stack),
        is_suit_byte(suit),
    ensures
        drain_from(counts, stack, i, suit).0.len() == 37,
        forall|j: int| 0 <= j < 37 ==> counts[j] <= #[trigger] drain_from(counts, stack, i, suit).0[j],
    decreases stack.len() - i,
{
    if 0 <= i < stack.len() && !(stack[i] == 0 && suit == 122) {
        let j = digit_index(stack[i], suit);
        lemma_drain_mono(counts.update(j, counts[j] + 1), stack, i + 1, suit);
    }
}

proof fn lemma_run_ok(bytes: Seq<u8>)
    ensures
        parse_run(bytes).0.len() == 37,
        stack_ok(parse_run(bytes).1),
    decreases bytes.len(),
{
    if bytes.len() > 0 {
        lemma_run_ok(bytes.drop_last());
        let st = parse_run(bytes.drop_last());
        let b = bytes.last();
        if st.2 is None && is_suit_byte(b) {
            lemma_drain_mono(st.0, st.1, 0, b);
        }
    }
}

/// Counts never go down as more bytes are read.
proof fn lemma_run_mono(bytes: Seq<u8>, n: int)
    requires
        0 <= n <= bytes.len(),
    ensures
        forall|j: int|
            0 <= j < 37 ==> parse_run(bytes.subrange(0, n)).0[j] <= #[trigger] parse_run(bytes).0[j],
        parse_run(bytes.subrange(0, n)).2 is Some ==> parse_run(bytes).2 == parse_run(bytes.subrange(0, n)).2,
    decreases bytes.len() - n,
{
    if n < bytes.len() {
        lemma_run_mono(bytes, n + 1);
        let pre = bytes.subrange(0, n + 1);
        assert(pre.drop_last() =~= bytes.subrange(0, n));
        lemma_run_ok(bytes.subrange(0, n));
        let st = parse_run(bytes.subrange(0, n));
        if st.2 is None && is_suit_byte(pre.last()) {
            lemma_drain_mono(st.0, st.1, 0, pre.last());
        }
    } else {
        assert(bytes.subrange(0, n) =~= bytes);
    }
}

/// Parses a hand into 37 counts (the three red fives last). Spaces are
/// allowed.
pub fn hand_with_aka(s: &str) -> (r: Result<[u8; 37], HandError>)
    requires
        vstd::string::is_ascii(s) ==> hand_fits(s),
    ensures
        match r {
            Ok(a) => spec_hand_with_aka(s) == Ok::<Seq<int>, HandError>(
                Seq::new(37, |i: int| a@[i] as int),
            ),
            Err(e) => spec_hand_with_aka(s) == Err::<Seq<int>, HandError>(e),
        },
{
    if !s.is_ascii() {
        return Err(HandError::NonAscii);
    }
    let bytes = s.as_bytes();
    let ghost all = bytes@;
    let mut ret: [u8; 37] = [0; 37];
    let mut stack: Vec<u8> = Vec::new();
    let mut i: usize = 0;
    while i < bytes.len()
        invariant
            i <= bytes@.len(),
            all == bytes@,
            all == vstd::string::StringSliceAdditionalSpecFns::spec_bytes(s),
            vstd::string::is_ascii(s),
            hand_fits(s),
            parse_run(all.subrange(0, i as int)).2 is None,
            Seq::new(37, |j: int| ret@[j] as int) =~= parse_run(all.subrange(0, i as int)).0,
            stack@.map_values(|d: u8| d as int) =~= parse_run(all.subrange(0, i as int)).1,
        decreases bytes@.len() - i,
    {
        let b = bytes[i];
        proof {
            assert(all.subrange(0, i as int + 1).drop_last() =~= all.subrange(0, i as int));
            lemma_run_ok(all.subrange(0, i as int));
            lemma_run_mono(all, i as int + 1);
            assert(all.subrange(0, i as int + 1) == all.subrange(0, i as int).push(b));
        }
        if b >= 48 && b <= 57 {
            stack.push(b - 48);
        } else if b == 109 || b == 112 || b == 115 || b == 122 {
            let ghost st = parse_run(all.subrange(0, i as int));
            let ghost fin = parse_run(all.subrange(0, i as int + 1));
            proof {
                lemma_drain_mono(st.0, st.1, 0, b);
                assert(fin == parse_step(st, b));
                assert forall|j: int| 0 <= j < 37 implies #[trigger] fin.0[j] <= 255 by {
                    assert(parse_run(all).0[j] <= 255);
                }
            }
            let mut k: usize = 0;
            while k < stack.len()
                invariant
                    k <= stack@.len(),
                    stack@.map_values(|d: u8| d as int) =~= st.1,
                    stack_ok(st.1),
                    st.0.len() == 37,
                    b == 109 || b == 112 || b == 115 || b == 122,
                    drain_from(Seq::new(37, |j: int| ret@[j] as int), st.1, k as int, b) == drain_from(
                        st.0,
                        st.1,
                        0,
                        b,
                    ),
                    forall|j: int| 0 <= j < 37 ==> #[trigger] fin.0[j] <= 255,
                    fin == parse_step(st, b),
                    fin == parse_run(all.subrange(0, i as int + 1)),
                    st.2 is None,
                    parse_run(all.subrange(0, i as int + 1)).2 is Some ==> parse_run(all).2 == parse_run(all.subrange(0, i as int + 1)).2,
                    all == vstd::string::StringSliceAdditionalSpecFns::spec_bytes(s),
                    vstd::string::is_ascii(s),
                decreases stack@.len() - k,
            {
                let t = stack[k];
                assert(st.1[k as int] == t);
                if t == 0 && b == 122 {
                    return Err(HandError::UnexpectedByte(b));
                }
                let idx: usize = if t == 0 {
                    if b == 109 {
                        34
                    } else if b == 112 {
                        35
                    } else {
                        36
                    }
                } else {
                    let kind: usize = if b == 109 {
                        0
                    } else if b == 112 {
                        1
                    } else if b == 115 {
                        2
                    } else {
                        3
                    };
                    kind * 9 + t as usize - 1
                };
                proof {
                    let cur = Seq::new(37, |j: int| ret@[j] as int);
                    assert(idx == digit_index(t as int, b));
                    lemma_drain_mono(cur.update(idx as int, cur[idx as int] + 1), st.1, k + 1, b);
                    assert(fin.0 == drain_from(cur, st.1, k as int, b).0);
                    assert(ret@[idx as int] + 1 <= fin.0[idx as int]);
                }
                let ghost cur = Seq::new(37, |j: int| ret@[j] as int);
                ret[idx] = ret[idx] + 1;
                proof {
                    assert(Seq::new(37, |j: int| ret@[j] as int) =~= cur.update(idx as int, cur[idx as int] + 1));
                }
                k += 1;
            }
            proof {
                assert(drain_from(Seq::new(37, |j: int| ret@[j] as int), st.1, stack@.len() as int, b) == (Seq::new(37, |j: int| ret@[j] as int), false));
            }
            stack = Vec::new();
        } else if b == 32 || b == 9 || b == 10 {
        } else {
            proof {
                assert(parse_run(all.subrange(0, i as int + 1)).2 == Some(b));
            }
            return Err(HandError::UnexpectedByte(b));
        }
        i += 1;
    }
    proof {
        assert(all.subrange(0, i as int) =~= all);
    }
    Ok(ret)
}


/// The 34 counts without red fives that `hand_with_aka` gives.
pub open spec fn merge_aka(c: Seq<int>) -> Seq<int> {
    Seq::new(
        34,
        |i: int|
            c[i] + if i == 4 {
                c[34]
            } else if i == 13 {
                c[35]
            } else if i == 22 {
                c[36]
            } else {
                0
            },
    )
}

/// What `hand` gives for `s`.
pub open spec fn spec_hand(s: &str) -> Result<Seq<int>, HandError> {
    match spec_hand_with_aka(s) {
        Ok(c) => Ok(merge_aka(c)),
        Err(e) => Err(e),
    }
}

/// Parses a hand into 34 counts, red fives counted as plain fives. Spaces
/// are allowed.
pub fn hand(s: &str) -> (r: Result<[u8; 34], HandError>)
    requires
        vstd::string::is_ascii(s) ==> hand_fits(s),
        spec_hand_with_aka(s) matches Ok(c) ==> c[4] + c[34] <= 255 && c[13] + c[35] <= 255 && c[22]
            + c[36] <= 255,
    ensures
        match r {
            Ok(a) => spec_hand(s) == Ok::<Seq<int>, HandError>(Seq::new(34, |i: int| a@[i] as int)),
            Err(e) => spec_hand(s) == Err::<Seq<int>, HandError>(e),
        },
{
    let mut ret: [u8; 34] = [0; 34];
    let h = hand_with_aka(s)?;
    let ghost c = Seq::new(37, |i: int| h@[i] as int);
    vec_add_assign(&mut ret, &h);
    ret[4] = ret[4] + h[34];
    ret[13] = ret[13] + h[35];
    ret[22] = ret[22] + h[36];
    proof {
        assert(Seq::new(34, |i: int| ret@[i] as int) =~= merge_aka(c));
    }
    Ok(ret)
}

/// Tile ids `0..n`, each repeated as often as its count says.
pub open spec fn expand(c: Seq<u8>, n: int) -> Seq<int>
    decreases n,
{
    if n <= 0 {
        Seq::empty()
    } else {
        expand(c, n - 1) + Seq::new(c[n - 1] as nat, |j: int| n - 1)
    }
}

/// `expand` of the 34 plain counts, then each red five present once.
pub open spec fn expand37(c: Seq<u8>) -> Seq<int> {
    expand(c, 34) + (if c[34] > 0 { seq![34int] } else { Seq::empty() }) + (if c[35] > 0 {
        seq![35int]
    } else {
        Seq::empty()
    }) + (if c[36] > 0 { seq![36int] } else { Seq::empty() })
}

pub open spec fn tile_ids(v: Seq<Tile>) -> Seq<int> {
    v.map_values(|t: Tile| t.id())
}

fn push_copies(ret: &mut Vec<Tile>, tid: u8, count: u8)
    requires
        tid < 38,
    ensures
        tile_ids(final(ret)@) == tile_ids(old(ret)@) + Seq::new(count as nat, |j: int| tid as int),
{
    let mut k: u8 = 0;
    while k < count
        invariant
            k <= count,
            tid < 38,
            tile_ids(ret@) == tile_ids(old(ret)@) + Seq::new(k as nat, |j: int| tid as int),
        decreases count - k,
    {
        let ghost prev = ret@;
        let t = Tile::new(tid);
        ret.push(t);
        proof {
            assert(ret@ == prev.push(t));
            assert(tile_ids(ret@) =~= tile_ids(prev).push(t.id()));
            assert(tile_ids(ret@) =~= tile_ids(old(ret)@) + Seq::new(k as nat + 1, |j: int| tid as int));
        }
        k += 1;
    }
}

/// The tiles of 37 counts; a red five is listed once whatever its count.
pub fn tile37_to_vec(tiles: &[u8; 37]) -> (r: Vec<Tile>)
    ensures
        tile_ids(r@) == expand37(tiles@),
{
    let mut ret: Vec<Tile> = Vec::new();
    let mut tid: u8 = 0;
    while tid < 34
        invariant
            tid <= 34,
            tile_ids(ret@) == expand(tiles@, tid as int),
        decreases 34 - tid,
    {
        push_copies(&mut ret, tid, tiles[tid as usize]);
        tid += 1;
    }
    let ghost base = tile_ids(ret@);
    if tiles[34] > 0 {
        ret.push(Tile::new(34));
    }
    let ghost b1 = tile_ids(ret@);
    proof {
        assert(b1 =~= base + (if tiles@[34] > 0 { seq![34int] } else { Seq::empty() }));
    }
    if tiles[35] > 0 {
        ret.push(Tile::new(35));
    }
    let ghost b2 = tile_ids(ret@);
    proof {
        assert(b2 =~= b1 + (if tiles@[35] > 0 { seq![35int] } else { Seq::empty() }));
    }
    if tiles[36] > 0 {
        ret.push(Tile::new(36));
    }
    proof {
        assert(tile_ids(ret@) =~= b2 + (if tiles@[36] > 0 { seq![36int] } else { Seq::empty() }));
    }
    ret
}

/// The tiles of 34 counts.
pub fn tile34_to_vec(tiles: &[u8; 34]) -> (r: Vec<Tile>)
    ensures
        tile_ids(r@) == expand(tiles@, 34),
{
    let mut ret: Vec<Tile> = Vec::new();
    let mut tid: u8 = 0;
    while tid < 34
        invariant
            tid <= 34,
            tile_ids(ret@) == expand(tiles@, tid as int),
        decreases 34 - tid,
    {
        push_copies(&mut ret, tid, tiles[tid as usize]);
        tid += 1;
    }
    ret
}


pub open spec fn digit_char(d: int) -> char {
    ((48 + d) as u8) as char
}

pub open spec fn rep(c: char, n: int) -> Seq<char> {
    Seq::new(n as nat, |j: int| c)
}

pub open spec fn suit_char(kind: int) -> char {
    if kind == 0 {
        'm'
    } else if kind == 1 {
        'p'
    } else {
        's'
    }
}

/// The digits of the first `n` numbers of suit `kind`.
pub open spec fn suit_body(t: Seq<u8>, kind: int, aka: bool, n: int) -> Seq<char>
    decreases n,
{
    if n <= 0 {
        Seq::empty()
    } else {
        let c = t[kind * 9 + n - 1] as int;
        suit_body(t, kind, aka, n - 1) + if c == 0 {
            Seq::empty()
        } else if n == 5 && aka {
            seq!['0'] + rep('5', c - 1)
        } else {
            rep(digit_char(n), c)
        }
    }
}

/// The text of one suit: its digits and its letter, or nothing.
pub open spec fn suit_part(t: Seq<u8>, kind: int, aka: bool) -> Seq<char> {
    let b = suit_body(t, kind, aka, 9);
    if b.len() == 0 {
        b
    } else {
        b.push(suit_char(kind))
    }
}

/// Appends `p` to `acc` with a space between, skipping empty parts.
pub open spec fn join_sp(acc: Seq<char>, p: Seq<char>) -> Seq<char> {
    if p.len() == 0 {
        acc
    } else if acc.len() == 0 {
        p
    } else {
        acc + seq![' '] + p
    }
}

/// The digits of the first `n` honors.
pub open spec fn honor_body(t: Seq<u8>, n: int) -> Seq<char>
    decreases n,
{
    if n <= 0 {
        Seq::empty()
    } else {
        honor_body(t, n - 1) + rep(digit_char(n), t[27 + n - 1] as int)
    }
}

/// The text that `tiles_to_string` gives.
pub open spec fn spec_tiles_to_string(t: Seq<u8>, aka: Seq<bool>) -> Seq<char> {
    let suhai = join_sp(
        join_sp(suit_part(t, 0, aka[0]), suit_part(t, 1, aka[1])),
        suit_part(t, 2, aka[2]),
    );
    let jihai = honor_body(t, 7);
    if jihai.len() == 0 {
        suhai
    } else {
        suhai + seq![' '] + jihai + seq!['z']
    }
}

fn digit_str(d: u8) -> (r: &'static str)
    requires
        d <= 9,
    ensures
        r@ == seq![digit_char(d as int)],
{
    proof {
        reveal_strlit("0");
        reveal_strlit("1");
        reveal_strlit("2");
        reveal_strlit("3");
        reveal_strlit("4");
        reveal_strlit("5");
        reveal_strlit("6");
        reveal_strlit("7");
        reveal_strlit("8");
        reveal_strlit("9");
    }
    match d {
        0 => "0",
        1 => "1",
        2 => "2",
        3 => "3",
        4 => "4",
        5 => "5",
        6 => "6",
        7 => "7",
        8 => "8",
        _ => "9",
    }
}

fn append_rep(s: &mut String, d: u8, n: u8)
    requires
        d <= 9,
    ensures
        final(s)@ == old(s)@ + rep(digit_char(d as int), n as int),
{
    let mut k: u8 = 0;
    while k < n
        invariant
            k <= n,
            d <= 9,
            s@ == old(s)@ + rep(digit_char(d as int), k as int),
        decreases n - k,
    {
        s.append(digit_str(d));
        proof {
            assert(s@ =~= old(s)@ + rep(digit_char(d as int), k + 1));
        }
        k += 1;
    }
}

fn suit_text(tiles: &[u8; 34], kind: usize, aka: bool) -> (r: String)
    requires
        kind < 3,
    ensures
        r@ == suit_part(tiles@, kind as int, aka),
{
    let mut partial = String::new();
    let mut num: usize = 0;
    while num < 9
        invariant
            num <= 9,
            kind < 3,
            partial@ == suit_body(tiles@, kind as int, aka, num as int),
        decreases 9 - num,
    {
        let count = tiles[kind * 9 + num];
        let ghost before = partial@;
        if count > 0 {
            if num == 4 && aka {
                partial.append(digit_str(0));
                append_rep(&mut partial, 5, count - 1);
            } else {
                append_rep(&mut partial, (num + 1) as u8, count);
            }
        }
        proof {
            assert(partial@ =~= suit_body(tiles@, kind as int, aka, num as int + 1));
        }
        num += 1;
    }
    if !partial.as_str().is_empty() {
        proof {
            reveal_strlit("m");
            reveal_strlit("p");
            reveal_strlit("s");
        }
        if kind == 0 {
            partial.append("m");
        } else if kind == 1 {
            partial.append("p");
        } else {
            partial.append("s");
        }
    }
    partial
}

fn join_text(acc: String, p: String) -> (r: String)
    ensures
        r@ == join_sp(acc@, p@),
{
    if p.as_str().is_empty() {
        acc
    } else if acc.as_str().is_empty() {
        p
    } else {
        let mut acc = acc;
        proof {
            reveal_strlit(" ");
        }
        acc.append(" ");
        acc.append(p.as_str());
        acc
    }
}

/// Writes counts back in tenhou.net/2 notation; `aka[k]` turns one five of
/// suit `k` into `0`.
pub fn tiles_to_string(tiles: &[u8; 34], aka: [bool; 3]) -> (r: String)
    ensures
        r@ == spec_tiles_to_string(tiles@, aka@),
{
    let m = suit_text(tiles, 0, aka[0]);
    let p = suit_text(tiles, 1, aka[1]);
    let s = suit_text(tiles, 2, aka[2]);
    let suhai = join_text(join_text(m, p), s);
    let mut jihai = String::new();
    let mut num: usize = 0;
    while num < 7
        invariant
            num <= 7,
            jihai@ == honor_body(tiles@, num as int),
        decreases 7 - num,
    {
        append_rep(&mut jihai, (num + 1) as u8, tiles[27 + num]);
        num += 1;
    }
    if jihai.as_str().is_empty() {
        suhai
    } else {
        let mut ret = suhai;
        proof {
            reveal_strlit(" ");
            reveal_strlit("z");
        }
        ret.append(" ");
        ret.append(jihai.as_str());
        ret.append("z");
        ret
    }
}

} // verus!
