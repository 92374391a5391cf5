//! Results of kyokus and games.

use crate::mjai::event::Event;
use vstd::prelude::*;

verus! {

#[derive(Debug, Clone)]
pub struct KyokuResult {
    pub kyoku: u8,
    pub honba: u8,
    pub can_renchan: bool,
    pub has_hora: bool,
    pub has_abortive_ryukyoku: bool,
    pub kyotaku_left: u8,
    pub scores: [i32; 4],
}

/// Final placements: who is at each rank, and the rank of each seat.
#[derive(Debug, Clone, Copy)]
pub struct Rankings {
    pub player_by_rank: [u8; 4],
    pub rank_by_player: [u8; 4],
}

/// How a kyoku ended from one seat's perspective.
#[derive(Debug, Clone, Copy, PartialEq, Eq)]
pub enum KyokuEndState {
    Passive,
    Draw,
    Win,
    DealIn,
}

/// Seat `j` places above seat `i`: a higher score, or the same score and
/// an earlier seat.
pub open spec fn above(s: Seq<i32>, j: int, i: int) -> bool {
    s[j] > s[i] || (s[j] == s[i] && j < i)
}

pub open spec fn ind(b: bool) -> int {
    if b { 1 } else { 0 }
}

/// The rank of seat `i`: the number of seats above it.
pub open spec fn spec_rank(s: Seq<i32>, i: int) -> int {
    ind(above(s, 0, i)) + ind(above(s, 1, i)) + ind(above(s, 2, i)) + ind(above(s, 3, i))
}

/// Ranks lie in `0..4` and differ between seats.
pub proof fn lemma_rank_permutation(s: Seq<i32>)
    requires
        s.len() == 4,
    ensures
        forall|i: int| 0 <= i < 4 ==> 0 <= #[trigger] spec_rank(s, i) < 4,
        forall|i: int, j: int|
            0 <= i < 4 && 0 <= j < 4 && i != j ==> #[trigger] spec_rank(s, i) != #[trigger] spec_rank(s, j),
{
}

/// Ranks the seats by score, highest first; equal scores keep seat order.
/// A score of `i32::MIN` has no negation to sort by and is refused.
pub fn rankings(scores: &[i32; 4]) -> (r: Rankings)
    requires
        forall|i: int| 0 <= i < 4 ==> scores@[i] != i32::MIN,
    ensures
        forall|i: int| 0 <= i < 4 ==> r.rank_by_player@[i] == spec_rank(scores@, i),
        forall|i: int| 0 <= i < 4 ==> r.player_by_rank@[spec_rank(scores@, i)] == i,
{
    proof {
        lemma_rank_permutation(scores@);
    }
    let mut player_by_rank: [u8; 4] = [0; 4];
    let mut rank_by_player: [u8; 4] = [0; 4];
    let mut i: usize = 0;
    while i < 4
        invariant
            i <= 4,
            forall|k: int| 0 <= k < 4 ==> 0 <= #[trigger] spec_rank(scores@, k) < 4,
            forall|k: int, j: int|
                0 <= k < 4 && 0 <= j < 4 && k != j ==> #[trigger] spec_rank(scores@, k) != #[trigger] spec_rank(
                    scores@,
                    j,
                ),
            forall|k: int| 0 <= k < i ==> rank_by_player@[k] == spec_rank(scores@, k),
            forall|k: int| 0 <= k < i ==> player_by_rank@[#[trigger] spec_rank(scores@, k)] == k,
        decreases 4 - i,
    {
        let mut rank: u8 = 0;
        let mut j: usize = 0;
        while j < 4
            invariant
                i < 4,
                j <= 4,
                rank == ind(j > 0 && above(scores@, 0, i as int)) + ind(j > 1 && above(scores@, 1, i as int))
                    + ind(j > 2 && above(scores@, 2, i as int)) + ind(j > 3 && above(scores@, 3, i as int)),
            decreases 4 - j,
        {
            if scores[j] > scores[i] || (scores[j] == scores[i] && j < i) {
                rank += 1;
            }
            j += 1;
        }
        rank_by_player[i] = rank;
        player_by_rank[rank as usize] = i as u8;
        i += 1;
    }
    Rankings { player_by_rank, rank_by_player }
}

/// Players listed by rank place in descending score order.
pub proof fn lemma_rankings_sorted(s: Seq<i32>, a: int, b: int)
    requires
        s.len() == 4,
        0 <= a < 4,
        0 <= b < 4,
        spec_rank(s, a) < spec_rank(s, b),
    ensures
        s[a] >= s[b],
        s[a] == s[b] ==> a < b,
{
}

/// How a kyoku ended for `perspective`, reading the log `log[..n]` from its
/// end: end-of-kyoku markers and other seats' wins are skipped; a draw, a
/// win or a deal-in decides; any other event means nothing happened.
pub open spec fn spec_end_state(log: Seq<Event>, n: int, perspective: u8) -> KyokuEndState
    decreases n,
{
    if n <= 0 {
        KyokuEndState::Passive
    } else {
        match log[n - 1] {
            Event::EndKyoku => spec_end_state(log, n - 1, perspective),
            Event::Ryukyoku { .. } => KyokuEndState::Draw,
            Event::Hora { actor, target, .. } => if actor == perspective {
                KyokuEndState::Win
            } else if target == perspective {
                KyokuEndState::DealIn
            } else {
                spec_end_state(log, n - 1, perspective)
            },
            _ => KyokuEndState::Passive,
        }
    }
}

/// How the kyoku of `log` ended for `perspective`.
pub fn kyoku_end_state(log: &[Event], perspective: u8) -> (r: KyokuEndState)
    ensures
        r == spec_end_state(log@, log@.len() as int, perspective),
{
    let mut n = log.len();
    while n > 0
        invariant
            n <= log@.len(),
            spec_end_state(log@, n as int, perspective) == spec_end_state(log@, log@.len() as int, perspective),
        decreases n,
    {
        match &log[n - 1] {
            Event::EndKyoku => {},
            Event::Ryukyoku { .. } => {
                return KyokuEndState::Draw;
            },
            Event::Hora { actor, target, .. } => {
                if *actor == perspective {
                    return KyokuEndState::Win;
                } else if *target == perspective {
                    return KyokuEndState::DealIn;
                }
            },
            _ => {
                return KyokuEndState::Passive;
            },
        }
        n -= 1;
    }
    KyokuEndState::Passive
}

/// How each kyoku of a game ended for `perspective`.
pub fn kyoku_end_states(game_log: &[Vec<Event>], perspective: u8) -> (r: Vec<KyokuEndState>)
    ensures
        r@.len() == game_log@.len(),
        forall|i: int|
            0 <= i < r@.len() ==> r@[i] == spec_end_state(
                #[trigger] game_log@[i]@,
                game_log@[i]@.len() as int,
                perspective,
            ),
{
    let mut ret: Vec<KyokuEndState> = Vec::new();
    let mut i: usize = 0;
    while i < game_log.len()
        invariant
            i <= game_log@.len(),
            ret@.len() == i,
            forall|k: int|
                0 <= k < i ==> ret@[k] == spec_end_state(
                    #[trigger] game_log@[k]@,
                    game_log@[k]@.len() as int,
                    perspective,
                ),
        decreases game_log@.len() - i,
    {
        ret.push(kyoku_end_state(game_log[i].as_slice(), perspective));
        i += 1;
    }
    ret
}

/// An event that does not decide the kyoku for `p`: an end marker, or a
/// win that neither made nor paid.
pub open spec fn passes_over(ev: Event, p: u8) -> bool {
    ev is EndKyoku || (ev matches Event::Hora { actor, target, .. } && actor != p && target != p)
}

/// How a kyoku ended for `p` is decided by its last deciding event: with
/// only end markers and other seats' wins after index `i`, a win by `p` at
/// `i` is a win (a seat that wins is never said to deal in, even by
/// tsumo), a win on `p`'s tile by another seat is a deal-in, and a draw is
/// a draw. Conversely a win is only reported where `p` won, and a deal-in
/// only where another seat won on `p`'s tile.
pub proof fn lemma_end_state_decided(log: Seq<Event>, n: int, p: u8, i: int)
    requires
        0 <= i < n <= log.len(),
        forall|j: int| i < j < n ==> passes_over(#[trigger] log[j], p),
    ensures
        log[i] matches Event::Hora { actor, .. } && actor == p ==> spec_end_state(log, n, p) == KyokuEndState::Win,
        log[i] matches Event::Hora { actor, target, .. } && actor != p && target == p ==> spec_end_state(log, n, p)
            == KyokuEndState::DealIn,
        log[i] is Ryukyoku ==> spec_end_state(log, n, p) == KyokuEndState::Draw,
    decreases n - i,
{
    if i < n - 1 {
        assert(passes_over(log[n - 1], p));
        lemma_end_state_decided(log, n - 1, p, i);
    }
}

/// A win is reported only where `p` won; a deal-in only where another
/// seat won on `p`'s tile; a draw only where the kyoku was drawn.
pub proof fn lemma_end_state_witness(log: Seq<Event>, n: int, p: u8)
    requires
        0 <= n <= log.len(),
    ensures
        spec_end_state(log, n, p) == KyokuEndState::Win ==> exists|i: int|
            0 <= i < n && (#[trigger] log[i] matches Event::Hora { actor, .. } && actor == p),
        spec_end_state(log, n, p) == KyokuEndState::DealIn ==> exists|i: int|
            0 <= i < n && (#[trigger] log[i] matches Event::Hora { actor, target, .. } && actor != p && target == p),
        spec_end_state(log, n, p) == KyokuEndState::Draw ==> exists|i: int| 0 <= i < n && #[trigger] log[i] is Ryukyoku,
    decreases n,
{
    if n > 0 {
        lemma_end_state_witness(log, n - 1, p);
        let e = log[n - 1];
        if e matches Event::Hora { actor, .. } && actor == p {
            assert(log[n - 1] matches Event::Hora { actor, .. } && actor == p);
        }
    }
}

} // verus!
