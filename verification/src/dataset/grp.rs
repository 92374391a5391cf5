//! The record of one game for the rank predictor: the state at the start of
//! each kyoku, and the final scores and placements.

use crate::arena::result::{rankings, spec_rank};
use crate::mjai::event::Event;
use crate::vec_ops::vec_add_assign_i32;
use vstd::prelude::*;

verus! {

/// One game: a row `[grand kyoku, honba, kyotaku, four scores]` per kyoku,
/// and the placements and final scores.
pub struct GrpRecord {
    pub kyokus: Vec<[i32; 7]>,
    pub rank_by_player: [u8; 4],
    pub final_scores: [i32; 4],
}

/// Why a log gives no record.
#[derive(Debug, Clone, Copy, PartialEq, Eq)]
pub enum GrpError {
    /// A win or draw of the last kyoku has no point changes.
    MissingDeltas,
    /// No kyoku starts in the log.
    NoStartKyoku,
}

pub open spec fn in_i32(x: int) -> bool {
    i32::MIN <= x <= i32::MAX
}

/// What `ev` changes of `seat`'s score: the deltas of a win or draw, and
/// 1000 for an accepted riichi.
pub open spec fn score_change(ev: Event, seat: int) -> int {
    match ev {
        Event::Hora { deltas, .. } => match deltas {
            Some(d) => d@[seat] as int,
            None => 0,
        },
        Event::Ryukyoku { deltas } => match deltas {
            Some(d) => d@[seat] as int,
            None => 0,
        },
        Event::ReachAccepted { actor } => if actor as int == seat {
            -1000
        } else {
            0
        },
        _ => 0,
    }
}

/// The score change of `seat` over `events[i..]`.
pub open spec fn suffix_delta(events: Seq<Event>, i: int, seat: int) -> int
    decreases events.len() - i,
{
    if i >= events.len() || i < 0 {
        0
    } else {
        score_change(events[i], seat) + suffix_delta(events, i + 1, seat)
    }
}

/// A win or draw without point changes.
pub open spec fn lacks_deltas(ev: Event) -> bool {
    ev matches Event::Hora { deltas: None, .. } || ev matches Event::Ryukyoku { deltas: None }
}

/// Some win or draw in `events[i..]` has no point changes.
pub open spec fn missing_from(events: Seq<Event>, i: int) -> bool
    decreases events.len() - i,
{
    if i >= events.len() || i < 0 {
        false
    } else {
        lacks_deltas(events[i]) || missing_from(events, i + 1)
    }
}

/// The riichi sticks put in `events[i..]` before the kyoku ends.
pub open spec fn open_kyotaku(events: Seq<Event>, i: int) -> int
    decreases events.len() - i,
{
    if i >= events.len() || i < 0 {
        0
    } else {
        match events[i] {
            Event::EndKyoku => 0,
            Event::ReachAccepted { .. } => 1 + open_kyotaku(events, i + 1),
            _ => open_kyotaku(events, i + 1),
        }
    }
}

/// The index of the last kyoku start in `events[..n]`, or -1.
pub open spec fn last_start(events: Seq<Event>, n: int) -> int
    decreases n,
{
    if n <= 0 {
        -1
    } else if events[n - 1] is StartKyoku {
        n - 1
    } else {
        last_start(events, n - 1)
    }
}

/// The grand kyoku: 0 to 3 for the east round, 4 to 7 for the south round,
/// 8 and on for the west round.
pub open spec fn grand_kyoku(bakaze: int, kyoku: int) -> int {
    if bakaze == 27 {
        kyoku - 1
    } else if bakaze == 28 {
        3 + kyoku
    } else {
        7 + kyoku
    }
}

/// The row of a kyoku start.
pub open spec fn start_row(ev: Event) -> Seq<int> {
    match ev {
        Event::StartKyoku { bakaze, kyoku, honba, kyotaku, scores, .. } => seq![
            grand_kyoku(bakaze.id(), kyoku as int),
            honba as int,
            kyotaku as int,
            scores@[0] as int,
            scores@[1] as int,
            scores@[2] as int,
            scores@[3] as int,
        ],
        _ => Seq::empty(),
    }
}

/// The rows of the kyoku starts in `events[i..]`.
pub open spec fn rows_from(events: Seq<Event>, i: int) -> Seq<Seq<int>>
    decreases events.len() - i,
{
    if i >= events.len() || i < 0 {
        Seq::empty()
    } else if events[i] is StartKyoku {
        seq![start_row(events[i])] + rows_from(events, i + 1)
    } else {
        rows_from(events, i + 1)
    }
}

/// The scores after the last kyoku, before the leftover riichi sticks.
pub open spec fn base_scores(events: Seq<Event>) -> Seq<i32> {
    let s = last_start(events, events.len() as int);
    Seq::new(
        4,
        |seat: int| (events[s]->StartKyoku_scores@[seat] + suffix_delta(events, s + 1, seat)) as i32,
    )
}

/// The seat placed first.
pub open spec fn top_seat(b: Seq<i32>) -> int {
    if spec_rank(b, 0) == 0 {
        0
    } else if spec_rank(b, 1) == 0 {
        1
    } else if spec_rank(b, 2) == 0 {
        2
    } else {
        3
    }
}

pub open spec fn sum_of(b: Seq<i32>) -> int {
    b[0] + b[1] + b[2] + b[3]
}

/// The final scores: when the scores add up to less than 100000, the riichi
/// sticks left on the table go to the first place.
pub open spec fn final_score(events: Seq<Event>, seat: int) -> int {
    let s = last_start(events, events.len() as int);
    let b = base_scores(events);
    if sum_of(b) < 100_000 && seat == top_seat(b) {
        b[seat] + (events[s]->StartKyoku_kyotaku + open_kyotaku(events, s + 1)) * 1000
    } else {
        b[seat] as int
    }
}

/// The machine limits: the kyoku numbers read from mjai lie in range, and
/// every sum the scan makes fits in `i32`.
pub open spec fn kyoku_ok(ev: Event) -> bool {
    ev matches Event::StartKyoku { bakaze, kyoku, .. } ==> if bakaze.id() == 27 {
        kyoku >= 1
    } else if bakaze.id() == 28 {
        kyoku <= 252
    } else {
        kyoku <= 248
    }
}

/// Every kyoku number read from mjai lies in range.
pub open spec fn kyokus_ok(events: Seq<Event>) -> bool {
    forall|i: int| 0 <= i < events.len() ==> kyoku_ok(#[trigger] events[i])
}

/// The riichi declarers after index `s` are seats.
pub open spec fn actors_ok(events: Seq<Event>, s: int) -> bool {
    forall|i: int| s < i < events.len() ==> (#[trigger] events[i] matches Event::ReachAccepted { actor } ==> actor < 4)
}

/// The sums of score changes after index `s` fit in `i32`.
pub open spec fn sums_ok(events: Seq<Event>, s: int) -> bool {
    forall|i: int, seat: int| s < i <= events.len() && 0 <= seat < 4 ==> in_i32(#[trigger] suffix_delta(events, i, seat))
}

/// The final scores, their sum and the leftover riichi sticks fit in `i32`.
pub open spec fn finals_ok(events: Seq<Event>, s: int) -> bool {
    let b = base_scores(events);
    &&& forall|seat: int|
        0 <= seat < 4 ==> in_i32(events[s]->StartKyoku_scores@[seat] + suffix_delta(events, s + 1, seat))
            && #[trigger] b[seat] != i32::MIN
    &&& in_i32(b[0] + b[1]) && in_i32(b[0] + b[1] + b[2]) && in_i32(sum_of(b))
    &&& open_kyotaku(events, s + 1) <= 1_000_000
    &&& in_i32(b[top_seat(b)] + (events[s]->StartKyoku_kyotaku + open_kyotaku(events, s + 1)) * 1000)
}

/// The machine limits: the kyoku numbers read from mjai lie in range, and
/// every sum the scan makes fits in `i32`.
pub open spec fn grp_fits(events: Seq<Event>) -> bool {
    let s = last_start(events, events.len() as int);
    &&& kyokus_ok(events)
    &&& actors_ok(events, s)
    &&& sums_ok(events, s)
    &&& s >= 0 ==> finals_ok(events, s)
}

pub open spec fn rows_of(v: Seq<[i32; 7]>) -> Seq<Seq<int>> {
    v.map_values(|a: [i32; 7]| a@.map_values(|x: i32| x as int))
}

proof fn lemma_last_start_ge(events: Seq<Event>, n: int, j: int)
    requires
        0 <= j < n <= events.len(),
        events[j] is StartKyoku,
    ensures
        j <= last_start(events, n) < n,
    decreases n,
{
    if n - 1 != j {
        lemma_last_start_ge(events, n - 1, j);
    }
}

proof fn lemma_last_start_range(events: Seq<Event>, n: int)
    requires
        0 <= n <= events.len(),
    ensures
        -1 <= last_start(events, n) < n,
        last_start(events, n) >= 0 ==> events[last_start(events, n)] is StartKyoku,
    decreases n,
{
    if n > 0 {
        lemma_last_start_range(events, n - 1);
    }
}

/// Without a kyoku start in `events[i..]` there is no row.
proof fn lemma_no_rows(events: Seq<Event>, i: int)
    requires
        0 <= i <= events.len(),
        last_start(events, events.len() as int) < i,
    ensures
        rows_from(events, i) == Seq::<Seq<int>>::empty(),
    decreases events.len() - i,
{
    if i < events.len() {
        if events[i] is StartKyoku {
            lemma_last_start_ge(events, events.len() as int, i);
        }
        lemma_no_rows(events, i + 1);
    }
}

proof fn lemma_missing_at(events: Seq<Event>, k: int, j: int)
    requires
        0 <= k <= j < events.len(),
        lacks_deltas(events[j]),
    ensures
        missing_from(events, k),
    decreases j - k,
{
    if k < j {
        lemma_missing_at(events, k + 1, j);
    }
}

proof fn lemma_open_kyotaku_bound(events: Seq<Event>, i: int)
    requires
        0 <= i <= events.len(),
    ensures
        0 <= open_kyotaku(events, i) <= events.len() - i,
    decreases events.len() - i,
{
    if i < events.len() {
        lemma_open_kyotaku_bound(events, i + 1);
    }
}

proof fn lemma_top_seat(b: Seq<i32>)
    requires
        b.len() == 4,
    ensures
        0 <= top_seat(b) < 4,
        spec_rank(b, top_seat(b)) == 0,
{
    crate::arena::result::lemma_rank_permutation(b);
}

impl GrpRecord {
    /// Reads the record of a game from its log. The kyoku rows come in log
    /// order; the final scores are those at the start of the last kyoku
    /// with that kyoku's point changes, and the placements follow them.
    pub fn load_events(events: &[Event]) -> (r: Result<GrpRecord, GrpError>)
        requires
            grp_fits(events@),
        ensures
            ({
                let s = last_start(events@, events@.len() as int);
                if missing_from(events@, s + 1) {
                    r == Err::<GrpRecord, GrpError>(GrpError::MissingDeltas)
                } else if s < 0 {
                    r == Err::<GrpRecord, GrpError>(GrpError::NoStartKyoku)
                } else {
                    &&& r is Ok
                    &&& rows_of(r->Ok_0.kyokus@) == rows_from(events@, 0)
                    &&& forall|seat: int|
                        0 <= seat < 4 ==> #[trigger] r->Ok_0.final_scores@[seat] == final_score(events@, seat)
                    &&& forall|seat: int|
                        0 <= seat < 4 ==> #[trigger] r->Ok_0.rank_by_player@[seat] == spec_rank(
                            base_scores(events@),
                            seat,
                        )
                }
            }),
    {
        let ghost len = events@.len() as int;
        let ghost s = last_start(events@, len);
        proof {
            lemma_last_start_range(events@, len);
        }
        let mut game_info: Vec<[i32; 7]> = Vec::new();
        let mut rank_opt: Option<[u8; 4]> = None;
        let mut final_deltas: [i32; 4] = [0; 4];
        let mut final_scores: [i32; 4] = [0; 4];
        let mut cur_kyotaku: usize = 0;
        let mut i = events.len();
        while i > 0
            invariant
                i <= events@.len(),
                len == events@.len(),
                s == last_start(events@, len),
                -1 <= s < len,
                s >= 0 ==> events@[s] is StartKyoku,
                grp_fits(events@),
                rank_opt is None ==> {
                    &&& s < i
                    &&& forall|seat: int| 0 <= seat < 4 ==> #[trigger] final_deltas@[seat] == suffix_delta(events@, i as int, seat)
                    &&& cur_kyotaku == open_kyotaku(events@, i as int)
                    &&& !missing_from(events@, i as int)
                    &&& game_info@.len() == 0
                },
                rank_opt is Some ==> {
                    &&& 0 <= i <= s
                    &&& !missing_from(events@, s + 1)
                    &&& forall|seat: int| 0 <= seat < 4 ==> #[trigger] final_scores@[seat] == final_score(events@, seat)
                    &&& forall|seat: int|
                        0 <= seat < 4 ==> #[trigger] rank_opt->0@[seat] == spec_rank(base_scores(events@), seat)
                    &&& rows_of(game_info@) == rows_from(events@, i as int)
                },
            decreases i,
        {
            let j = i - 1;
            match &events[j] {
                Event::Hora { deltas, .. } | Event::Ryukyoku { deltas } => {
                    if rank_opt.is_none() {
                        match deltas {
                            Some(ds) => {
                                proof {
                                    assert(s < j);
                                    assert forall|seat: int| 0 <= seat < 4 implies #[trigger] final_deltas@[seat]
                                        + ds@[seat] == suffix_delta(events@, j as int, seat) && in_i32(
                                        suffix_delta(events@, j as int, seat),
                                    ) by {
                                        assert(score_change(events@[j as int], seat) == ds@[seat]);
                                    }
                                }
                                vec_add_assign_i32(&mut final_deltas, ds);
                            },
                            None => {
                                proof {
                                    assert(lacks_deltas(events@[j as int]));
                                    lemma_missing_at(events@, s + 1, j as int);
                                }
                                return Err(GrpError::MissingDeltas);
                            },
                        }
                    }
                },
                Event::ReachAccepted { actor } => {
                    if rank_opt.is_none() {
                        proof {
                            assert(s < j);
                            assert(in_i32(suffix_delta(events@, j as int, *actor as int)));
                            lemma_open_kyotaku_bound(events@, i as int);
                        }
                        final_deltas[*actor as usize] = final_deltas[*actor as usize] - 1000;
                        cur_kyotaku = cur_kyotaku + 1;
                    }
                },
                Event::StartKyoku { bakaze, kyoku, honba, kyotaku, scores, .. } => {
                    if rank_opt.is_none() {
                        proof {
                            lemma_last_start_ge(events@, len, j as int);
                            assert(s == j);
                        }
                        let mut base: [i32; 4] = *scores;
                        vec_add_assign_i32(&mut base, &final_deltas);
                        proof {
                            assert(base@ =~= base_scores(events@));
                        }
                        let rk = rankings(&base);
                        final_scores = base;
                        let sum: i32 = base[0] + base[1] + base[2] + base[3];
                        if sum < 100_000 {
                            proof {
                                lemma_top_seat(base@);
                                crate::arena::result::lemma_rank_permutation(base@);
                            }
                            let top = rk.player_by_rank[0] as usize;
                            final_scores[top] = final_scores[top] + (*kyotaku as i32 + cur_kyotaku as i32) * 1000;
                        }
                        rank_opt = Some(rk.rank_by_player);
                        proof {
                            lemma_no_rows(events@, i as int);
                        }
                    }
                    let id = bakaze.as_u8();
                    let grand: u8 = if id == 27 {
                        *kyoku - 1
                    } else if id == 28 {
                        3 + *kyoku
                    } else {
                        7 + *kyoku
                    };
                    let row: [i32; 7] = [
                        grand as i32,
                        *honba as i32,
                        *kyotaku as i32,
                        scores[0],
                        scores[1],
                        scores[2],
                        scores[3],
                    ];
                    let ghost old_info = game_info@;
                    game_info.insert(0, row);
                    proof {
                        assert(row@.map_values(|x: i32| x as int) =~= start_row(events@[j as int]));
                        assert(rows_of(game_info@) =~= seq![start_row(events@[j as int])] + rows_of(old_info));
                    }
                },
                Event::EndKyoku => {
                    if rank_opt.is_none() {
                        cur_kyotaku = 0;
                    }
                },
                _ => {},
            }
            i = j;
        }
        match rank_opt {
            None => Err(GrpError::NoStartKyoku),
            Some(rank_by_player) => Ok(GrpRecord { kyokus: game_info, rank_by_player, final_scores }),
        }
    }
}

/// The index of the last kyoku start, if any.
fn find_last_start(events: &[Event]) -> (r: Option<usize>)
    ensures
        match r {
            Some(s) => s as int == last_start(events@, events@.len() as int) && s < events@.len(),
            None => last_start(events@, events@.len() as int) == -1,
        },
{
    let mut n = events.len();
    while n > 0
        invariant
            n <= events@.len(),
            last_start(events@, n as int) == last_start(events@, events@.len() as int),
        decreases n,
    {
        if let Event::StartKyoku { .. } = &events[n - 1] {
            return Some(n - 1);
        }
        n -= 1;
    }
    None
}

/// The riichi sticks put from `start` on before the kyoku ends, or `None`
/// when there are more than `limit`.
fn count_open_kyotaku(events: &[Event], start: usize, limit: usize) -> (r: Option<usize>)
    requires
        start <= events@.len(),
    ensures
        match r {
            Some(n) => n == open_kyotaku(events@, start as int) && n <= limit,
            None => open_kyotaku(events@, start as int) > limit,
        },
{
    let mut n: usize = 0;
    let mut k = start;
    while k < events.len()
        invariant
            start <= k <= events@.len(),
            n <= limit,
            open_kyotaku(events@, start as int) == n + open_kyotaku(events@, k as int),
        decreases events@.len() - k,
    {
        match &events[k] {
            Event::EndKyoku => {
                return Some(n);
            },
            Event::ReachAccepted { .. } => {
                proof {
                    lemma_open_kyotaku_bound(events@, k + 1);
                }
                if n == limit {
                    return None;
                }
                n += 1;
            },
            _ => {},
        }
        k += 1;
    }
    Some(n)
}

fn fits_i32(x: i64) -> (r: bool)
    ensures
        r == in_i32(x as int),
{
    -2147483648 <= x && x <= 2147483647
}

impl GrpRecord {
    /// Whether `load_events` can read `events` within the machine's limits:
    /// the kyoku numbers lie in range, the riichi declarers of the last
    /// kyoku are seats, and every sum it makes fits in `i32`.
    pub fn can_load(events: &[Event]) -> (r: bool)
        ensures
            r == grp_fits(events@),
    {
        let len = events.len();
        let mut k: usize = 0;
        while k < len
            invariant
                k <= len == events@.len(),
                forall|j: int| 0 <= j < k ==> kyoku_ok(#[trigger] events@[j]),
            decreases len - k,
        {
            if let Event::StartKyoku { bakaze, kyoku, .. } = &events[k] {
                let id = bakaze.as_u8();
                let ok = if id == 27 {
                    *kyoku >= 1
                } else if id == 28 {
                    *kyoku <= 252
                } else {
                    *kyoku <= 248
                };
                if !ok {
                    proof {
                        assert(!kyoku_ok(events@[k as int]));
                    }
                    return false;
                }
            }
            k += 1;
        }
        let s_opt = find_last_start(events);
        let ghost s = last_start(events@, len as int);
        proof {
            lemma_last_start_range(events@, len as int);
        }
        let start = match s_opt {
            Some(s) => s + 1,
            None => 0,
        };
        let mut sums: [i64; 4] = [0; 4];
        let mut i = len;
        while i > start
            invariant
                start <= i <= len == events@.len(),
                start == s + 1,
                s == last_start(events@, len as int),
                -1 <= s < len,
                kyokus_ok(events@),
                forall|seat: int| 0 <= seat < 4 ==> #[trigger] sums@[seat] == suffix_delta(events@, i as int, seat),
                forall|ii: int, seat: int|
                    i <= ii <= len && 0 <= seat < 4 ==> in_i32(#[trigger] suffix_delta(events@, ii, seat)),
                forall|jj: int|
                    i <= jj < len ==> (#[trigger] events@[jj] matches Event::ReachAccepted { actor } ==> actor < 4),
            decreases i,
        {
            let j = i - 1;
            match &events[j] {
                Event::Hora { deltas: Some(d), .. } | Event::Ryukyoku { deltas: Some(d) } => {
                    let mut seat: usize = 0;
                    while seat < 4
                        invariant
                            seat <= 4,
                            forall|x: int|
                                0 <= x < 4 ==> #[trigger] sums@[x] == suffix_delta(events@, i as int, x) + if x
                                    < seat {
                                    d@[x] as int
                                } else {
                                    0
                                },
                            forall|x: int| 0 <= x < 4 ==> in_i32(#[trigger] suffix_delta(events@, i as int, x)),
                        decreases 4 - seat,
                    {
                        sums[seat] = sums[seat] + d[seat] as i64;
                        seat += 1;
                    }
                },
                Event::ReachAccepted { actor } => {
                    if *actor >= 4 {
                        proof {
                            assert(s < j);
                            assert(j < len);
                            assert(!(events@[j as int] matches Event::ReachAccepted { actor } ==> actor < 4));
                            assert(!actors_ok(events@, s));
                        }
                        return false;
                    }
                    sums[*actor as usize] = sums[*actor as usize] - 1000;
                },
                _ => {},
            }
            proof {
                assert forall|seat: int| 0 <= seat < 4 implies #[trigger] sums@[seat] == suffix_delta(
                    events@,
                    j as int,
                    seat,
                ) by {
                    assert(suffix_delta(events@, j as int, seat) == score_change(events@[j as int], seat)
                        + suffix_delta(events@, i as int, seat));
                }
            }
            if !(fits_i32(sums[0]) && fits_i32(sums[1]) && fits_i32(sums[2]) && fits_i32(sums[3])) {
                proof {
                    let bad = if !in_i32(sums@[0] as int) {
                        0int
                    } else if !in_i32(sums@[1] as int) {
                        1
                    } else if !in_i32(sums@[2] as int) {
                        2
                    } else {
                        3
                    };
                    assert(!in_i32(suffix_delta(events@, j as int, bad)));
                }
                return false;
            }
            i = j;
        }
        match s_opt {
            None => {
                true
            },
            Some(s_idx) => {
                match &events[s_idx] {
                    Event::StartKyoku { scores, kyotaku, .. } => {
                        let mut base64: [i64; 4] = [0; 4];
                        let mut seat: usize = 0;
                        while seat < 4
                            invariant
                                seat <= 4,
                                forall|x: int|
                                    0 <= x < seat ==> #[trigger] base64@[x] == scores@[x] + sums@[x],
                                forall|x: int| 0 <= x < 4 ==> in_i32(#[trigger] sums@[x] as int),
                            decreases 4 - seat,
                        {
                            base64[seat] = scores[seat] as i64 + sums[seat];
                            seat += 1;
                        }
                        let mut base: [i32; 4] = [0; 4];
                        let mut seat: usize = 0;
                        while seat < 4
                            invariant
                                seat <= 4,
                                s_idx == s,
                                s == last_start(events@, events@.len() as int),
                                0 <= s < events@.len(),
                                scores@ == events@[s]->StartKyoku_scores@,
                                forall|x: int| 0 <= x < 4 ==> #[trigger] sums@[x] == suffix_delta(events@, s + 1, x),
                                forall|x: int|
                                    0 <= x < 4 ==> #[trigger] base64@[x] == scores@[x] + sums@[x],
                                forall|x: int|
                                    0 <= x < seat ==> #[trigger] base@[x] == base64@[x] && in_i32(base64@[x] as int)
                                        && base64@[x] != i32::MIN,
                            decreases 4 - seat,
                        {
                            if !fits_i32(base64[seat]) || base64[seat] == -2147483648 {
                                proof {
                                    assert(!(in_i32(scores@[seat as int] + suffix_delta(events@, s + 1, seat as int))
                                        && base_scores(events@)[seat as int] != i32::MIN));
                                    assert(!finals_ok(events@, s));
                                }
                                return false;
                            }
                            let v = base64[seat];
                            assert(in_i32(v as int));
                            base[seat] = v as i32;
                            assert(base@[seat as int] == v);
                            seat += 1;
                        }
                        proof {
                            assert(base@ =~= base_scores(events@));
                        }
                        let b0 = base[0] as i64;
                        let b1 = base[1] as i64;
                        let b2 = base[2] as i64;
                        let b3 = base[3] as i64;
                        if !(fits_i32(b0 + b1) && fits_i32(b0 + b1 + b2) && fits_i32(b0 + b1 + b2 + b3)) {
                            return false;
                        }
                        let open = match count_open_kyotaku(events, s_idx + 1, 1_000_000) {
                            Some(n) => n,
                            None => {
                                return false;
                            },
                        };
                        let rk = rankings(&base);
                        proof {
                            lemma_top_seat(base@);
                            crate::arena::result::lemma_rank_permutation(base@);
                        }
                        let top = rk.player_by_rank[0] as usize;
                        fits_i32(base[top] as i64 + (*kyotaku as i64 + open as i64) * 1000)
                    },
                    _ => false,
                }
            },
        }
    }
}

} // verus!
