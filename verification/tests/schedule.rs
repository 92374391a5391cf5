use riichi::arena::schedule::{one_vs_three_schedule, two_vs_two_schedule};

#[test]
fn one_vs_three_groups_of_four() {
    let (seeds, challenger, champion, indexes) = one_vs_three_schedule((10, 99), 2);
    assert_eq!(seeds, vec![(10, 99), (10, 99), (10, 99), (10, 99), (11, 99), (11, 99), (11, 99), (11, 99)]);
    assert_eq!(challenger, vec![0, 1, 2, 3, 0, 1, 2, 3]);
    assert_eq!(champion, vec![1, 2, 3, 0, 2, 3, 0, 1, 3, 0, 1, 2, 1, 2, 3, 0, 2, 3, 0, 1, 3, 0, 1, 2]);
    assert_eq!(indexes.len(), 8);
    assert_eq!(indexes[0], [(0, 0), (1, 0), (1, 1), (1, 2)]);
    assert_eq!(indexes[1], [(1, 3), (0, 1), (1, 4), (1, 5)]);
    assert_eq!(indexes[2], [(1, 6), (1, 7), (0, 2), (1, 8)]);
    assert_eq!(indexes[3], [(1, 9), (1, 10), (1, 11), (0, 3)]);
    assert_eq!(indexes[7], [(1, 21), (1, 22), (1, 23), (0, 7)]);
    // Each seat's player id matches the id list it indexes.
    for (g, idx) in indexes.iter().enumerate() {
        for (seat, &(agent, player)) in idx.iter().enumerate() {
            let id = if agent == 0 { challenger[player] } else { champion[player] };
            assert_eq!(id as usize, seat, "game {g}");
        }
    }
    let (seeds, challenger, champion, indexes) = one_vs_three_schedule((5, 0), 0);
    assert!(seeds.is_empty() && challenger.is_empty() && champion.is_empty() && indexes.is_empty());
}

#[test]
fn two_vs_two_pairs_of_games() {
    let (seeds, challenger, champion, indexes) = two_vs_two_schedule((3, 7), 2);
    assert_eq!(seeds, vec![(3, 7), (3, 7), (4, 7), (4, 7)]);
    assert_eq!(challenger, vec![0, 2, 1, 3, 0, 2, 1, 3]);
    assert_eq!(champion, vec![1, 3, 0, 2, 1, 3, 0, 2]);
    assert_eq!(indexes[0], [(0, 0), (1, 0), (0, 1), (1, 1)]);
    assert_eq!(indexes[1], [(1, 2), (0, 2), (1, 3), (0, 3)]);
    assert_eq!(indexes[2], [(0, 4), (1, 4), (0, 5), (1, 5)]);
    for idx in &indexes {
        for (seat, &(agent, player)) in idx.iter().enumerate() {
            let id = if agent == 0 { challenger[player] } else { champion[player] };
            assert_eq!(id as usize, seat);
        }
    }
}
