//! Groups may repeat a suit and come in any order: reading two complete
//! hand texts joined by a space adds their counts.

use super::{drain_from, is_suit_byte, parse_run, parse_step, spec_hand_with_aka, HandError, ParseState};
use super::roundtrip::{parse_from, start_state, to_bytes, lemma_from_append, lemma_run_is_from};
use vstd::prelude::*;

verus! {

/// The counts `a` and `b` added index by index.
pub open spec fn add_counts(a: Seq<int>, b: Seq<int>) -> Seq<int> {
    Seq::new(a.len(), |i: int| a[i] + b[i])
}

pub open spec fn is_digit_byte(b: u8) -> bool {
    48 <= b <= 57
}

/// No digit of `bytes` is left waiting for its suit letter: a suit letter
/// comes after every digit.
pub open spec fn no_pending_digit(bytes: Seq<u8>) -> bool {
    forall|i: int|
        0 <= i < bytes.len() && is_digit_byte(#[trigger] bytes[i]) ==> exists|j: int|
            i < j < bytes.len() && is_suit_byte(#[trigger] bytes[j])
}

/// Every digit of the text `s` is followed, somewhere after it, by a suit
/// letter.
pub open spec fn complete_groups(s: &str) -> bool {
    no_pending_digit(to_bytes(s@))
}

/// The parser's state as it always is: 37 counts and a stack of digits.
pub open spec fn state_ok(st: ParseState) -> bool {
    &&& st.0.len() == 37
    &&& forall|k: int| 0 <= k < st.1.len() ==> 0 <= #[trigger] st.1[k] <= 9
}

proof fn lemma_drain_add(a: Seq<int>, c: Seq<int>, stk: Seq<int>, i: int, suit: u8)
    requires
        a.len() == c.len(),
        c.len() == 37,
        forall|k: int| 0 <= k < stk.len() ==> 0 <= #[trigger] stk[k] <= 9,
        is_suit_byte(suit),
    ensures
        drain_from(add_counts(a, c), stk, i, suit) == (
            add_counts(a, drain_from(c, stk, i, suit).0),
            drain_from(c, stk, i, suit).1,
        ),
        drain_from(c, stk, i, suit).0.len() == c.len(),
    decreases stk.len() - i,
{
    if i >= stk.len() || i < 0 {
    } else if stk[i] == 0 && suit == 122 {
    } else {
        let j = super::digit_index(stk[i], suit);
        assert(0 <= stk[i] <= 9);
        assert(0 <= j < 37);
        let c2 = c.update(j, c[j] + 1);
        assert(add_counts(a, c).update(j, add_counts(a, c)[j] + 1) =~= add_counts(a, c2));
        lemma_drain_add(a, c2, stk, i + 1, suit);
    }
}

proof fn lemma_step_add(a: Seq<int>, st: ParseState, x: u8)
    requires
        a.len() == st.0.len(),
        state_ok(st),
    ensures
        parse_step((add_counts(a, st.0), st.1, st.2), x) == (
            add_counts(a, parse_step(st, x).0),
            parse_step(st, x).1,
            parse_step(st, x).2,
        ),
        state_ok(parse_step(st, x)),
{
    if st.2 is Some {
    } else if 48 <= x <= 57 {
    } else if is_suit_byte(x) {
        lemma_drain_add(a, st.0, st.1, 0, x);
    } else {
    }
}

/// Reading from counts raised by `a` ends with counts raised by `a`.
proof fn lemma_from_add(a: Seq<int>, st: ParseState, b: Seq<u8>)
    requires
        a.len() == st.0.len(),
        state_ok(st),
    ensures
        parse_from((add_counts(a, st.0), st.1, st.2), b) == (
            add_counts(a, parse_from(st, b).0),
            parse_from(st, b).1,
            parse_from(st, b).2,
        ),
        state_ok(parse_from(st, b)),
    decreases b.len(),
{
    if b.len() > 0 {
        lemma_from_add(a, st, b.drop_last());
        lemma_step_add(a, parse_from(st, b.drop_last()), b.last());
    }
}

/// A read without error of bytes with no pending digit leaves no digit
/// waiting.
proof fn lemma_no_pending(b: Seq<u8>)
    requires
        no_pending_digit(b),
        parse_run(b).2 is None,
    ensures
        parse_run(b).1.len() == 0,
    decreases b.len(),
{
    if b.len() > 0 {
        let p = b.drop_last();
        let x = b.last();
        let st = parse_run(p);
        if st.2 is Some {
            assert(parse_step(st, x) == st);
        }
        if is_digit_byte(x) {
            assert(is_digit_byte(b[b.len() - 1]));
        } else if !is_suit_byte(x) {
            assert forall|i: int| 0 <= i < p.len() && is_digit_byte(#[trigger] p[i]) implies exists|j: int|
                i < j < p.len() && is_suit_byte(#[trigger] p[j]) by {
                assert(b[i] == p[i]);
                let j = choose|j: int| i < j < b.len() && is_suit_byte(#[trigger] b[j]);
                assert(j != b.len() - 1);
                assert(p[j] == b[j]);
            }
            lemma_no_pending(p);
        }
    }
}

/// Reading `s1`, a space and `s2`, where `s1` reads without error and
/// leaves no digit without its suit letter, gives the counts of `s1` plus
/// those of `s2`, or the error that `s2` gives.
pub proof fn lemma_join_adds(s: &str, s1: &str, s2: &str)
    requires
        s@ == s1@ + seq![' '] + s2@,
        spec_hand_with_aka(s1) is Ok,
        complete_groups(s1),
    ensures
        spec_hand_with_aka(s) == match spec_hand_with_aka(s2) {
            Ok(c2) => Ok::<Seq<int>, HandError>(add_counts(spec_hand_with_aka(s1)->Ok_0, c2)),
            Err(e) => Err(e),
        },
{
    broadcast use vstd::string::is_ascii_spec_bytes;

    let sp = s1@ + seq![' '];
    assert(vstd::utf8::is_ascii_chars(seq![' ']));
    vstd::utf8::is_ascii_chars_concat(sp, s1@, seq![' ']);
    vstd::utf8::is_ascii_chars_concat(s@, sp, s2@);
    assert(vstd::string::is_ascii(s1));
    let b1 = to_bytes(s1@);
    let b2 = to_bytes(s2@);
    assert(vstd::string::StringSliceAdditionalSpecFns::spec_bytes(s1) =~= b1);
    lemma_run_is_from(b1);
    let st1 = parse_run(b1);
    lemma_no_pending(b1);
    let z = start_state().0;
    lemma_from_add(z, start_state(), b1);
    let c1 = st1.0;
    lemma_from_add(c1, start_state(), b2);
    assert(add_counts(c1, z) =~= c1);
    assert((c1, Seq::<int>::empty(), None::<u8>) == (add_counts(c1, z), start_state().1, start_state().2));
    if vstd::string::is_ascii(s2) {
        assert(vstd::string::is_ascii(s));
        assert(vstd::string::StringSliceAdditionalSpecFns::spec_bytes(s2) =~= b2);
        assert(vstd::string::StringSliceAdditionalSpecFns::spec_bytes(s) =~= to_bytes(s@));
        assert(to_bytes(s@) =~= b1 + seq![32u8] + b2);
        lemma_run_is_from(b2);
        lemma_run_is_from(to_bytes(s@));
        lemma_from_append(start_state(), b1 + seq![32u8], b2);
        lemma_from_append(start_state(), b1, seq![32u8]);
        assert(seq![32u8].drop_last() =~= Seq::<u8>::empty());
        assert(parse_from(st1, Seq::<u8>::empty()) == st1);
        assert(parse_from(st1, seq![32u8]) == parse_step(st1, 32u8));
        assert(st1 == (c1, Seq::<int>::empty(), None::<u8>));
    } else {
        assert(!vstd::string::is_ascii(s));
    }
}

} // verus!
