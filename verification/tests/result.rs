use riichi::arena::{kyoku_end_state, kyoku_end_states, KyokuEndState};
use riichi::mjai::Event;

#[test]
fn rankings() {
    let mut scores = [25000, 25000, 30000, 20000];
    let r = riichi::arena::rankings(&scores);
    assert_eq!(r.player_by_rank, [2, 0, 1, 3]);
    assert_eq!(r.rank_by_player, [1, 2, 0, 3]);
    *scores.iter_mut().min_by_key(|s| -**s).unwrap() = 0; // used in game end kyotaku give out
    assert_eq!(scores, [25000, 25000, 0, 20000]);

    scores = [25000, 25000, 25000, 25000];
    let r = riichi::arena::rankings(&scores);
    assert_eq!(r.player_by_rank, [0, 1, 2, 3]);
    assert_eq!(r.rank_by_player, [0, 1, 2, 3]);
    *scores.iter_mut().min_by_key(|s| -**s).unwrap() = 0;
    assert_eq!(scores, [0, 25000, 25000, 25000]);

    scores = [18000, 32000, 32000, 18000];
    let r = riichi::arena::rankings(&scores);
    assert_eq!(r.player_by_rank, [1, 2, 0, 3]);
    assert_eq!(r.rank_by_player, [2, 0, 1, 3]);
    *scores.iter_mut().min_by_key(|s| -**s).unwrap() = 0;
    assert_eq!(scores, [18000, 0, 32000, 18000]);

    scores = [32000, 18000, 18000, 32000];
    let r = riichi::arena::rankings(&scores);
    assert_eq!(r.player_by_rank, [0, 3, 1, 2]);
    assert_eq!(r.rank_by_player, [0, 2, 3, 1]);
    *scores.iter_mut().min_by_key(|s| -**s).unwrap() = 0;
    assert_eq!(scores, [0, 18000, 18000, 32000]);

    scores = [0, 100000, 0, 0];
    let r = riichi::arena::rankings(&scores);
    assert_eq!(r.player_by_rank, [1, 0, 2, 3]);
    assert_eq!(r.rank_by_player, [1, 0, 2, 3]);
    *scores.iter_mut().min_by_key(|s| -**s).unwrap() = 0;
    assert_eq!(scores, [0; 4]);
}

#[test]
fn end_states() {
    let hora = Event::Hora { actor: 1, target: 2, deltas: None, ura_markers: None };
    let log = vec![Event::Nothing, hora.clone(), Event::EndKyoku];
    assert_eq!(kyoku_end_state(&log, 1), KyokuEndState::Win);
    assert_eq!(kyoku_end_state(&log, 2), KyokuEndState::DealIn);
    assert_eq!(kyoku_end_state(&log, 0), KyokuEndState::Passive);

    let double = vec![
        Event::Hora { actor: 3, target: 2, deltas: None, ura_markers: None },
        Event::Hora { actor: 1, target: 2, deltas: None, ura_markers: None },
        Event::EndKyoku,
    ];
    assert_eq!(kyoku_end_state(&double, 3), KyokuEndState::Win);

    let draw = vec![Event::Ryukyoku { deltas: None }, Event::EndKyoku];
    assert_eq!(kyoku_end_state(&draw, 0), KyokuEndState::Draw);

    let all = kyoku_end_states(&[log, draw], 2);
    assert_eq!(all, vec![KyokuEndState::DealIn, KyokuEndState::Draw]);
}
