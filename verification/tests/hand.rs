use riichi::hand::{hand, hand_with_aka, tile34_to_vec, tile37_to_vec, tiles_to_string, HandError};

#[test]
fn parse() {
    assert_eq!(
        hand("1111m 333p 222s 444z").unwrap(),
        [
            4, 0, 0, 0, 0, 0, 0, 0, 0, // m
            0, 0, 3, 0, 0, 0, 0, 0, 0, // p
            0, 3, 0, 0, 0, 0, 0, 0, 0, // s
            0, 0, 0, 3, 0, 0, 0, // z
        ]
    );

    assert_eq!(
        hand_with_aka("22334450m234p2s3s4s").unwrap(),
        [
            0, 2, 2, 2, 1, 0, 0, 0, 0, // m
            0, 1, 1, 1, 0, 0, 0, 0, 0, // p
            0, 1, 1, 1, 0, 0, 0, 0, 0, // s
            0, 0, 0, 0, 0, 0, 0, // z
            1, 0, 0, // a
        ]
    );

    assert_eq!(
        hand("456m 6p 7899p 77z 987s 9p").unwrap(),
        [
            0, 0, 0, 1, 1, 1, 0, 0, 0, // m
            0, 0, 0, 0, 0, 1, 1, 1, 3, // p
            0, 0, 0, 0, 0, 0, 1, 1, 1, // s
            0, 0, 0, 0, 0, 0, 2, // z
        ]
    );
}

#[test]
fn string() {
    assert_eq!(
        tiles_to_string(
            &[
                0, 0, 2, 0, 1, 1, 1, 0, 0, // m
                0, 0, 1, 1, 1, 1, 1, 1, 0, // p
                0, 0, 0, 0, 0, 1, 1, 1, 0, // s
                0, 0, 0, 0, 0, 0, 0, // z
            ],
            [true, false, false]
        ),
        "33067m 345678p 678s"
    );
}

#[test]
fn parse_errors() {
    assert_eq!(hand("12m x"), Err(HandError::UnexpectedByte(b'x')));
    assert_eq!(hand("0z"), Err(HandError::UnexpectedByte(b'z')));
    assert_eq!(hand("1m 5é"), Err(HandError::NonAscii));
    // digits without a suit letter are dropped
    assert_eq!(hand("123").unwrap(), [0; 34]);
}

#[test]
fn red_fives_merge() {
    let h = hand("0055m").unwrap();
    assert_eq!(h[4], 4);
    let a = hand_with_aka("0055m").unwrap();
    assert_eq!(a[4], 2);
    assert_eq!(a[34], 2);
}

#[test]
fn to_vec() {
    let h = hand("112m 7z").unwrap();
    let v: Vec<u8> = tile34_to_vec(&h).iter().map(|t| t.as_u8()).collect();
    assert_eq!(v, vec![0, 0, 1, 33]);
    let a = hand_with_aka("00m 5p0p").unwrap();
    let v: Vec<u8> = tile37_to_vec(&a).iter().map(|t| t.as_u8()).collect();
    assert_eq!(v, vec![13, 34, 35]);
}

#[test]
fn string_honors_and_roundtrip() {
    let h = hand("11z").unwrap();
    assert_eq!(tiles_to_string(&h, [false; 3]), " 11z");
    let h = hand("123m 55p 1z").unwrap();
    assert_eq!(tiles_to_string(&h, [false, true, false]), "123m 05p 1z");
    let s = tiles_to_string(&hand("2344456m 14p 127s 2z").unwrap(), [false; 3]);
    assert_eq!(s, "2344456m 14p 127s 2z");
    assert_eq!(hand(&s).unwrap(), hand("2344456m 14p 127s 2z").unwrap());
}

#[test]
fn red_fives_read_back_as_written() {
    let h = hand("123455m 55p 5s 1z").unwrap();
    let s = tiles_to_string(&h, [true, true, true]);
    let a = hand_with_aka(&s).unwrap();
    assert_eq!(a[34], 1);
    assert_eq!(a[4], 1);
    assert_eq!(a[35], 1);
    assert_eq!(a[13], 1);
    assert_eq!(a[36], 1);
    assert_eq!(a[22], 0);
    assert_eq!(a[27], 1);
    let s = tiles_to_string(&h, [false, true, false]);
    let a = hand_with_aka(&s).unwrap();
    assert_eq!(a[34], 0);
    assert_eq!(a[4], 2);
    assert_eq!(a[35], 1);
    assert_eq!(a[13], 1);
    assert_eq!(a[36], 0);
    assert_eq!(a[22], 1);
    // No five in the suit: no red five is written.
    let h = hand("123m").unwrap();
    let a = hand_with_aka(&tiles_to_string(&h, [true; 3])).unwrap();
    assert_eq!(a[34], 0);
}

#[test]
fn joined_hands_add_up() {
    let a = hand_with_aka("123m 05p").unwrap();
    let b = hand_with_aka("11z 345m\n0s").unwrap();
    let ab = hand_with_aka("123m 05p 11z 345m\n0s").unwrap();
    for i in 0..37 {
        assert_eq!(ab[i], a[i] + b[i]);
    }
    assert_eq!(ab[2], 2);
    // An error in the second part is the error of the whole.
    assert_eq!(hand_with_aka("123m 0z"), Err(HandError::UnexpectedByte(b'z')));
    assert!(hand_with_aka("123m 4x").is_err());
}
