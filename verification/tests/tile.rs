use riichi::tile::Tile;

fn t(name: &str) -> Tile {
    Tile::from_name(name).unwrap()
}

#[test]
fn syntax() {
    assert_eq!(t("3s").as_usize(), 20);
    assert_eq!(t("5sr").as_u8(), 36);
    assert_eq!(t("5m").akaize().as_u8(), 34);

    let names = ["2p", "5pr", "S"];
    let ids: Vec<u8> = names.iter().map(|n| t(n).as_u8()).collect();
    assert_eq!(ids, vec![10, 35, 28]);
    let names = ["E", "6m", "?"];
    let ids: Vec<usize> = names.iter().map(|n| t(n).as_usize()).collect();
    assert_eq!(ids, vec![27, 5, 37]);

    assert!(matches!(t("E").as_u8(), 0 | 27 | 37 | 34));
    assert!(!matches!(t("3m").as_u8(), 18 | 15 | 31));
}

#[test]
fn completeness() {
    let names = [
        "1m", "2m", "3m", "4m", "5m", "6m", "7m", "8m", "9m", "1p", "2p", "3p", "4p", "5p", "6p",
        "7p", "8p", "9p", "1s", "2s", "3s", "4s", "5s", "6s", "7s", "8s", "9s", "E", "S", "W", "N",
        "P", "F", "C", "5mr", "5pr", "5sr", "?",
    ];
    for (id, name) in names.iter().enumerate() {
        let tile = Tile::new(id as u8);
        assert_eq!(tile.to_string(), *name);
        assert_eq!(Tile::from_name(name), Some(tile));
    }
}

#[test]
fn invalid_names() {
    assert_eq!(Tile::from_name("0m"), None);
    assert_eq!(Tile::from_name("5zr"), None);
    assert_eq!(Tile::from_name("East"), None);
    assert_eq!(Tile::try_from_u8(38), None);
}

#[test]
fn dora_order() {
    assert_eq!(t("9m").next(), t("1m"));
    assert_eq!(t("5mr").next(), t("6m"));
    assert_eq!(t("N").next(), t("E"));
    assert_eq!(t("C").next(), t("P"));
    assert_eq!(t("1s").prev(), t("9s"));
    assert_eq!(t("E").prev(), t("N"));
    assert_eq!(t("P").prev(), t("C"));
    for id in 0..37u8 {
        let tile = Tile::new(id);
        assert_eq!(tile.next().prev(), tile.deaka());
    }
}

#[test]
fn augment_swaps_m_and_p() {
    assert_eq!(t("3m").augment(), t("3p"));
    assert_eq!(t("7p").augment(), t("7m"));
    assert_eq!(t("5mr").augment(), t("5pr"));
    assert_eq!(t("5sr").augment(), t("5sr"));
    assert_eq!(t("E").augment(), t("E"));
    for id in 0..38u8 {
        let tile = Tile::new(id);
        assert_eq!(tile.augment().augment(), tile);
    }
}

#[test]
fn predicates() {
    assert!(t("5pr").is_aka());
    assert!(!t("5p").is_aka());
    assert_eq!(t("5pr").deaka(), t("5p"));
    assert!(t("9s").is_yaokyuu());
    assert!(t("C").is_yaokyuu());
    assert!(!t("2m").is_yaokyuu());
    assert!(t("W").is_jihai());
    assert!(t("?").is_unknown());
}

#[test]
fn next_and_prev_undo_each_other() {
    for id in 0..37u8 {
        let tile = Tile::try_from_u8(id).unwrap();
        assert_eq!(tile.next().prev(), tile.deaka());
        assert_eq!(tile.prev().next(), tile.deaka());
    }
}

#[test]
fn augment_twice_is_identity_for_all_tiles() {
    for id in 0..38u8 {
        let tile = Tile::try_from_u8(id).unwrap();
        assert_eq!(tile.augment().augment(), tile);
        assert_eq!(tile.augment().is_aka(), tile.is_aka());
    }
}

#[test]
fn aka_roundtrip() {
    for id in 0..38u8 {
        let tile = Tile::try_from_u8(id).unwrap();
        assert_eq!(tile.akaize().deaka(), tile.deaka());
        assert!(!tile.deaka().is_aka());
        if tile.is_aka() {
            assert_eq!(tile.deaka().akaize(), tile);
        }
    }
}
