use riichi::agent::tsumogiri::{EmptyTsumo, Tsumogiri};
use riichi::hand::hand;
use riichi::mjai::Event;
use riichi::state::{ActionCandidate, PlayerState, ReactionError};
use riichi::tile::Tile;

fn t(id: u8) -> Tile {
    Tile::try_from_u8(id).unwrap()
}

fn state_with(tehai: &str) -> PlayerState {
    let mut s = PlayerState::new(1);
    s.tehai = hand(tehai).unwrap();
    s
}

#[test]
fn new_state_is_empty() {
    let s = PlayerState::new(2);
    assert_eq!(s.player_id(), 2);
    assert!(s.is_oya());
    assert_eq!(s.tehai(), [0; 34]);
    assert!(!s.last_cans().can_act());
    assert_eq!(s.last_self_tsumo(), None);
    assert!(s.chis().is_empty());
    assert!(s.ankan_candidates().is_empty());
    assert!(!s.at_furiten());
}

#[test]
fn action_candidate_predicates() {
    let mut c = ActionCandidate::empty();
    assert!(!c.can_act());
    assert!(!c.can_pass());
    c.can_chi_mid = true;
    assert!(c.can_chi());
    assert!(c.can_pass());
    assert!(c.can_act());
    let mut c = ActionCandidate::empty();
    c.can_ankan = true;
    assert!(c.can_kan());
    assert!(!c.can_pass());
    assert!(c.can_act());
    let mut c = ActionCandidate::empty();
    c.can_tsumo_agari = true;
    assert!(c.can_agari());
    assert!(!c.can_pass());
    c.can_ron_agari = true;
    assert!(c.can_pass());
}

#[test]
fn validate_nothing_and_ryukyoku() {
    let mut s = state_with("123m");
    assert_eq!(s.validate_reaction(&Event::Nothing), Ok(()));
    assert_eq!(
        s.validate_reaction(&Event::Ryukyoku { deltas: None }),
        Err(ReactionError::CannotRyukyoku)
    );
    s.last_cans.can_ryukyoku = true;
    assert_eq!(s.validate_reaction(&Event::Ryukyoku { deltas: None }), Ok(()));
    assert_eq!(s.validate_reaction(&Event::EndGame), Err(ReactionError::NoActor));
    assert_eq!(
        s.validate_reaction(&Event::Reach { actor: 0 }),
        Err(ReactionError::ActorNotSelf { actor: 0, player_id: 1 })
    );
}

#[test]
fn validate_discards() {
    let mut s = state_with("123m");
    let dahai = Event::Dahai { actor: 1, pai: t(0), tsumogiri: false };
    assert_eq!(s.validate_reaction(&dahai), Err(ReactionError::CannotDiscard));
    s.last_cans.can_discard = true;
    assert_eq!(s.validate_reaction(&dahai), Ok(()));
    let not_held = Event::Dahai { actor: 1, pai: t(5), tsumogiri: false };
    assert_eq!(s.validate_reaction(&not_held), Err(ReactionError::TileNotInHand(t(5))));
    let giri = Event::Dahai { actor: 1, pai: t(0), tsumogiri: true };
    assert_eq!(s.validate_reaction(&giri), Err(ReactionError::NoTsumoYet));
    s.last_self_tsumo = Some(t(1));
    assert_eq!(s.validate_reaction(&giri), Err(ReactionError::CannotTsumogiri));
    s.last_self_tsumo = Some(t(0));
    assert_eq!(s.validate_reaction(&giri), Ok(()));
    // A red five needs its flag.
    s.tehai = hand("5m").unwrap();
    let red = Event::Dahai { actor: 1, pai: t(34), tsumogiri: false };
    assert_eq!(s.validate_reaction(&red), Err(ReactionError::TileNotInHand(t(34))));
    s.akas_in_hand = [true, false, false];
    assert_eq!(s.validate_reaction(&red), Ok(()));
}

#[test]
fn validate_calls() {
    let mut s = state_with("23m 55p");
    s.last_kawa_tile = Some(t(0));
    let chi = Event::Chi { actor: 1, target: 0, pai: t(0), consumed: [t(1), t(2)] };
    assert_eq!(s.validate_reaction(&chi), Err(ReactionError::CannotChiLow));
    s.last_cans.can_chi_low = true;
    assert_eq!(s.validate_reaction(&chi), Ok(()));
    let far = Event::Chi { actor: 1, target: 2, pai: t(0), consumed: [t(1), t(2)] };
    assert_eq!(s.validate_reaction(&far), Err(ReactionError::ChiFromNonKamicha));
    let other = Event::Chi { actor: 1, target: 0, pai: t(3), consumed: [t(1), t(2)] };
    assert_eq!(s.validate_reaction(&other), Err(ReactionError::ChiNotLastKawaTile));

    s.last_kawa_tile = Some(t(13));
    let pon = Event::Pon { actor: 1, target: 3, pai: t(13), consumed: [t(13), t(13)] };
    assert_eq!(s.validate_reaction(&pon), Err(ReactionError::CannotPon));
    s.last_cans.can_pon = true;
    assert_eq!(s.validate_reaction(&pon), Ok(()));
    let self_pon = Event::Pon { actor: 1, target: 1, pai: t(13), consumed: [t(13), t(13)] };
    assert_eq!(s.validate_reaction(&self_pon), Err(ReactionError::PonFromSelf));
    let kan = Event::Daiminkan { actor: 1, target: 3, pai: t(13), consumed: [t(13), t(13), t(13)] };
    assert_eq!(s.validate_reaction(&kan), Err(ReactionError::CannotDaiminkan));
}

#[test]
fn validate_kans_and_agari() {
    let mut s = state_with("1111m 5p");
    let ankan = Event::Ankan { actor: 1, consumed: [t(0), t(0), t(0), t(0)] };
    assert_eq!(s.validate_reaction(&ankan), Err(ReactionError::CannotAnkan));
    s.last_cans.can_ankan = true;
    assert_eq!(s.validate_reaction(&ankan), Err(ReactionError::AnkanNotCandidate(t(0))));
    s.ankan_candidates.clear();
    s.ankan_candidates.push(t(0));
    assert_eq!(s.validate_reaction(&ankan), Ok(()));

    let kakan = Event::Kakan { actor: 1, pai: t(13), consumed: [t(13), t(13), t(13)] };
    s.last_cans.can_kakan = true;
    assert_eq!(s.validate_reaction(&kakan), Err(ReactionError::KakanNotCandidate(t(13))));
    s.kakan_candidates.clear();
    s.kakan_candidates.push(t(13));
    assert_eq!(s.validate_reaction(&kakan), Ok(()));

    let tsumo = Event::Hora { actor: 1, target: 1, deltas: None, ura_markers: None };
    assert_eq!(s.validate_reaction(&tsumo), Err(ReactionError::CannotTsumoAgari));
    let ron = Event::Hora { actor: 1, target: 2, deltas: None, ura_markers: None };
    assert_eq!(s.validate_reaction(&ron), Err(ReactionError::CannotRonAgari));
    s.last_cans.can_ron_agari = true;
    assert_eq!(s.validate_reaction(&ron), Ok(()));
    assert_eq!(
        s.validate_reaction(&Event::ReachAccepted { actor: 1 }),
        Err(ReactionError::UnexpectedAction)
    );
    assert_eq!(s.validate_reaction(&Event::Reach { actor: 1 }), Err(ReactionError::CannotRiichi));
}

#[test]
fn tsumogiri_agent() {
    let agent = Tsumogiri(1);
    assert_eq!(agent.name(), "tsumogiri");
    let mut s = PlayerState::new(1);
    assert_eq!(agent.react(&s), Ok(Event::Nothing));
    s.last_cans.can_discard = true;
    assert_eq!(agent.react(&s), Err(EmptyTsumo));
    s.last_self_tsumo = Some(t(7));
    assert_eq!(agent.react(&s), Ok(Event::Dahai { actor: 1, pai: t(7), tsumogiri: true }));
}

#[test]
fn kan_candidates_are_checked() {
    let mut s = state_with("5555m 1p");
    s.last_cans.can_ankan = true;
    s.last_cans.can_kakan = true;
    let ankan = Event::Ankan { actor: 1, consumed: [t(4), t(4), t(4), t(4)] };
    assert_eq!(s.validate_reaction(&ankan), Err(ReactionError::AnkanNotCandidate(t(4))));
    s.ankan_candidates.push(t(4));
    assert_eq!(s.validate_reaction(&ankan), Ok(()));
    assert_eq!(s.ankan_candidates(), &[t(4)][..]);
    let kakan = Event::Kakan { actor: 1, pai: t(9), consumed: [t(9), t(9), t(9)] };
    assert_eq!(s.validate_reaction(&kakan), Err(ReactionError::KakanNotCandidate(t(9))));
    s.kakan_candidates.push(t(9));
    assert_eq!(s.validate_reaction(&kakan), Ok(()));
    s.pons.push(9);
    assert_eq!(s.pons(), &[9u8][..]);
}
