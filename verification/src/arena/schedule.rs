//! Which agent sits where in a batch of evaluation games, and on which wall
//! seed. Games that share a seed are dealt the same walls, so luck evens out
//! between the agents compared.
//!
//! A seat is given as `(agent, player)`: agent 0 is the challenger, agent 1
//! the champion, and `player` indexes that agent's list of player ids.

use vstd::prelude::*;

verus! {

/// The champion's player ids over a group of four games: in game `k` of the
/// group the champion holds every seat but `k`.
pub open spec fn champion_cycle(j: int) -> u8 {
    let t = seq![1u8, 2, 3, 0, 2, 3, 0, 1, 3, 0, 1, 2];
    t[j % 12]
}

/// The seat of the 1v3 game `i`: the challenger at seat `i % 4`, the
/// champion at the three others, each agent's player indexes running on
/// over the games.
pub open spec fn one_vs_three_seat(i: int, seat: int) -> (usize, usize) {
    let k = i % 4;
    if seat == k {
        (0usize, i as usize)
    } else {
        (1usize, (3 * i + if seat < k { seat } else { seat - 1 }) as usize)
    }
}

fn champion_id(j: usize) -> (r: u8)
    ensures
        r == champion_cycle(j as int),
{
    let t: [u8; 12] = [1, 2, 3, 0, 2, 3, 0, 1, 3, 0, 1, 2];
    proof {
        assert(t@ == seq![1u8, 2, 3, 0, 2, 3, 0, 1, 3, 0, 1, 2]);
    }
    t[j % 12]
}

/// The schedule of `seed_count` groups of four games where one challenger
/// plays three seats of a champion: the games' seeds, the challenger's and
/// the champion's player ids, and the seats of each game. Group `g` plays
/// four games on the seed `(seed_start.0 + g, seed_start.1)`, with the
/// challenger at seat 0, 1, 2 and 3 in turn.
pub fn one_vs_three_schedule(seed_start: (u64, u64), seed_count: u64) -> (r: (
    Vec<(u64, u64)>,
    Vec<u8>,
    Vec<u8>,
    Vec<[(usize, usize); 4]>,
))
    requires
        seed_start.0 + seed_count <= u64::MAX,
        12 * seed_count <= usize::MAX,
    ensures
        r.0@.len() == 4 * seed_count,
        forall|i: int| 0 <= i < 4 * seed_count ==> #[trigger] r.0@[i] == ((seed_start.0 + i / 4) as u64, seed_start.1),
        r.1@.len() == 4 * seed_count,
        forall|i: int| 0 <= i < 4 * seed_count ==> #[trigger] r.1@[i] == (i % 4) as u8,
        r.2@.len() == 12 * seed_count,
        forall|j: int| 0 <= j < 12 * seed_count ==> #[trigger] r.2@[j] == champion_cycle(j),
        r.3@.len() == 4 * seed_count,
        forall|i: int, seat: int|
            0 <= i < 4 * seed_count && 0 <= seat < 4 ==> #[trigger] r.3@[i]@[seat] == one_vs_three_seat(i, seat),
{
    let games: usize = (4 * seed_count) as usize;
    let mut seeds: Vec<(u64, u64)> = Vec::new();
    let mut challenger_ids: Vec<u8> = Vec::new();
    let mut indexes: Vec<[(usize, usize); 4]> = Vec::new();
    let mut i: usize = 0;
    while i < games
        invariant
            games == 4 * seed_count,
            12 * seed_count <= usize::MAX,
            seed_start.0 + seed_count <= u64::MAX,
            i <= games,
            seeds@.len() == i,
            challenger_ids@.len() == i,
            indexes@.len() == i,
            forall|x: int| 0 <= x < i ==> #[trigger] seeds@[x] == ((seed_start.0 + x / 4) as u64, seed_start.1),
            forall|x: int| 0 <= x < i ==> #[trigger] challenger_ids@[x] == (x % 4) as u8,
            forall|x: int, seat: int|
                0 <= x < i && 0 <= seat < 4 ==> #[trigger] indexes@[x]@[seat] == one_vs_three_seat(x, seat),
        decreases games - i,
    {
        seeds.push((seed_start.0 + (i / 4) as u64, seed_start.1));
        challenger_ids.push((i % 4) as u8);
        let k = i % 4;
        let mut group: [(usize, usize); 4] = [(0, 0); 4];
        let mut champion: usize = 3 * i;
        let mut seat: usize = 0;
        while seat < 4
            invariant
                i < games,
                games == 4 * seed_count,
                12 * seed_count <= usize::MAX,
                k == i % 4,
                seat <= 4,
                champion == 3 * i + if seat <= k { seat as int } else { seat - 1 },
                forall|s: int| 0 <= s < seat ==> #[trigger] group@[s] == one_vs_three_seat(i as int, s),
            decreases 4 - seat,
        {
            if seat == k {
                group[seat] = (0, i);
            } else {
                group[seat] = (1, champion);
                champion += 1;
            }
            seat += 1;
        }
        indexes.push(group);
        i += 1;
    }
    let mut champion_ids: Vec<u8> = Vec::new();
    let mut j: usize = 0;
    while j < 3 * games
        invariant
            games == 4 * seed_count,
            12 * seed_count <= usize::MAX,
            j <= 3 * games,
            champion_ids@.len() == j,
            forall|x: int| 0 <= x < j ==> #[trigger] champion_ids@[x] == champion_cycle(x),
        decreases 3 * games - j,
    {
        champion_ids.push(champion_id(j));
        j += 1;
    }
    (seeds, challenger_ids, champion_ids, indexes)
}

/// The challenger's player ids over a pair of 2v2 games: seats 0 and 2,
/// then seats 1 and 3.
pub open spec fn two_vs_two_challenger(j: int) -> u8 {
    let t = seq![0u8, 2, 1, 3];
    t[j % 4]
}

/// The champion's player ids over a pair of 2v2 games: seats 1 and 3, then
/// seats 0 and 2.
pub open spec fn two_vs_two_champion(j: int) -> u8 {
    let t = seq![1u8, 3, 0, 2];
    t[j % 4]
}

/// The seat of the 2v2 game `i`: in even games the challenger holds seats 0
/// and 2, in odd games seats 1 and 3; each agent's player indexes run on
/// over the games.
pub open spec fn two_vs_two_seat(i: int, seat: int) -> (usize, usize) {
    ((if (seat + i) % 2 == 0 { 0int } else { 1int }) as usize, (2 * i + seat / 2) as usize)
}

/// The schedule of `seed_count` pairs of games where two seats of a
/// challenger play two of a champion: the games' seeds, the challenger's
/// and the champion's player ids, and the seats of each game. Pair `g` plays
/// two games on the seed `(seed_start.0 + g, seed_start.1)`, the agents
/// changing seats between them.
pub fn two_vs_two_schedule(seed_start: (u64, u64), seed_count: u64) -> (r: (
    Vec<(u64, u64)>,
    Vec<u8>,
    Vec<u8>,
    Vec<[(usize, usize); 4]>,
))
    requires
        seed_start.0 + seed_count <= u64::MAX,
        4 * seed_count <= usize::MAX,
    ensures
        r.0@.len() == 2 * seed_count,
        forall|i: int| 0 <= i < 2 * seed_count ==> #[trigger] r.0@[i] == ((seed_start.0 + i / 2) as u64, seed_start.1),
        r.1@.len() == 4 * seed_count,
        forall|j: int| 0 <= j < 4 * seed_count ==> #[trigger] r.1@[j] == two_vs_two_challenger(j),
        r.2@.len() == 4 * seed_count,
        forall|j: int| 0 <= j < 4 * seed_count ==> #[trigger] r.2@[j] == two_vs_two_champion(j),
        r.3@.len() == 2 * seed_count,
        forall|i: int, seat: int|
            0 <= i < 2 * seed_count && 0 <= seat < 4 ==> #[trigger] r.3@[i]@[seat] == two_vs_two_seat(i, seat),
{
    let games: usize = (2 * seed_count) as usize;
    let mut seeds: Vec<(u64, u64)> = Vec::new();
    let mut indexes: Vec<[(usize, usize); 4]> = Vec::new();
    let mut i: usize = 0;
    while i < games
        invariant
            games == 2 * seed_count,
            4 * seed_count <= usize::MAX,
            seed_start.0 + seed_count <= u64::MAX,
            i <= games,
            seeds@.len() == i,
            indexes@.len() == i,
            forall|x: int| 0 <= x < i ==> #[trigger] seeds@[x] == ((seed_start.0 + x / 2) as u64, seed_start.1),
            forall|x: int, seat: int|
                0 <= x < i && 0 <= seat < 4 ==> #[trigger] indexes@[x]@[seat] == two_vs_two_seat(x, seat),
        decreases games - i,
    {
        seeds.push((seed_start.0 + (i / 2) as u64, seed_start.1));
        let group: [(usize, usize); 4] = if i % 2 == 0 {
            [(0, 2 * i), (1, 2 * i), (0, 2 * i + 1), (1, 2 * i + 1)]
        } else {
            [(1, 2 * i), (0, 2 * i), (1, 2 * i + 1), (0, 2 * i + 1)]
        };
        proof {
            assert forall|seat: int| 0 <= seat < 4 implies #[trigger] group@[seat] == two_vs_two_seat(i as int, seat) by {
                assert(seat == 0 || seat == 1 || seat == 2 || seat == 3);
            }
        }
        indexes.push(group);
        i += 1;
    }
    let ch: [u8; 4] = [0, 2, 1, 3];
    let cp: [u8; 4] = [1, 3, 0, 2];
    proof {
        assert(ch@ == seq![0u8, 2, 1, 3]);
        assert(cp@ == seq![1u8, 3, 0, 2]);
    }
    let mut challenger_ids: Vec<u8> = Vec::new();
    let mut champion_ids: Vec<u8> = Vec::new();
    let mut j: usize = 0;
    while j < 2 * games
        invariant
            games == 2 * seed_count,
            4 * seed_count <= usize::MAX,
            ch@ == seq![0u8, 2, 1, 3],
            cp@ == seq![1u8, 3, 0, 2],
            j <= 2 * games,
            challenger_ids@.len() == j,
            champion_ids@.len() == j,
            forall|x: int| 0 <= x < j ==> #[trigger] challenger_ids@[x] == two_vs_two_challenger(x),
            forall|x: int| 0 <= x < j ==> #[trigger] champion_ids@[x] == two_vs_two_champion(x),
        decreases 2 * games - j,
    {
        challenger_ids.push(ch[j % 4]);
        champion_ids.push(cp[j % 4]);
        j += 1;
    }
    (seeds, challenger_ids, champion_ids, indexes)
}

} // verus!
