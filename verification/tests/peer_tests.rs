use sonic_node::peer::{contains_peer, count_leading_zeros, position_of_peer, PeerId};

fn id(first: u8, last: u8) -> PeerId {
    let mut bytes = [0u8; 32];
    bytes[0] = first;
    bytes[31] = last;
    PeerId::new(bytes)
}

#[test]
fn distance_is_bytewise_xor() {
    let a = id(0b1010_0000, 3);
    let b = id(0b0110_0000, 5);
    let d = a.distance(&b);
    let mut expected = [0u8; 32];
    expected[0] = 0b1100_0000;
    expected[31] = 6;
    assert_eq!(d.as_bytes(), expected);
}

#[test]
fn distance_to_itself_is_zero() {
    let a = id(0x5a, 0xa5);
    assert!(a.distance(&a).is_zero());
    assert!(!a.distance(&id(0x5a, 0xa4)).is_zero());
}

#[test]
fn distance_is_symmetric() {
    let a = id(0x12, 0x34);
    let b = id(0xfe, 0x01);
    assert_eq!(a.distance(&b), b.distance(&a));
}

#[test]
fn distances_compare_most_significant_byte_first() {
    let origin = id(0, 0);
    let near = origin.distance(&id(0, 0xff));
    let far = origin.distance(&id(1, 0));
    assert!(near.less_than(&far));
    assert!(!far.less_than(&near));
    assert!(!near.less_than(&near));
    assert!(near.same(&near));
    assert!(!near.same(&far));
}

#[test]
fn shared_prefix_counts_leading_equal_bits() {
    let a = id(0b1010_0000, 0);
    assert_eq!(a.shared_prefix_len(&id(0b0010_0000, 0)), 0);
    assert_eq!(a.shared_prefix_len(&id(0b1110_0000, 0)), 1);
    assert_eq!(a.shared_prefix_len(&id(0b1010_0001, 0)), 7);
    assert_eq!(a.shared_prefix_len(&id(0b1010_0000, 1)), 255);
    assert_eq!(a.shared_prefix_len(&a), 256);
}

#[test]
fn leading_zeros_of_a_byte() {
    assert_eq!(count_leading_zeros(0), 8);
    assert_eq!(count_leading_zeros(1), 7);
    assert_eq!(count_leading_zeros(0b0001_0110), 3);
    assert_eq!(count_leading_zeros(0x80), 0);
    assert_eq!(count_leading_zeros(0xff), 0);
}

#[test]
fn identifiers_are_the_same_when_their_bytes_are() {
    assert!(id(1, 2).same(&id(1, 2)));
    assert!(!id(1, 2).same(&id(1, 3)));
    assert_eq!(id(7, 7), id(7, 7));
    assert_ne!(id(7, 7), id(7, 8));
    assert_eq!(id(9, 4).as_bytes()[0], 9);
    assert_eq!(id(9, 4).as_bytes()[31], 4);
}

#[test]
fn identifier_from_raw_bytes_is_their_sha256_digest() {
    let derived = PeerId::from_raw(&b"abc".to_vec());
    let expected: [u8; 32] = [
        0xba, 0x78, 0x16, 0xbf, 0x8f, 0x01, 0xcf, 0xea, 0x41, 0x41, 0x40, 0xde, 0x5d, 0xae, 0x22,
        0x23, 0xb0, 0x03, 0x61, 0xa3, 0x96, 0x17, 0x7a, 0x9c, 0xb4, 0x10, 0xff, 0x61, 0xf2, 0x00,
        0x15, 0xad,
    ];
    assert_eq!(derived.as_bytes(), expected);
    assert_eq!(derived, PeerId::from_raw(&b"abc".to_vec()));
    assert_ne!(derived, PeerId::from_raw(&b"abd".to_vec()));
}

#[test]
fn position_of_a_peer_is_its_first() {
    let peers = vec![id(1, 0), id(2, 0), id(1, 0)];
    assert_eq!(position_of_peer(&peers, &id(1, 0)), Some(0));
    assert_eq!(position_of_peer(&peers, &id(2, 0)), Some(1));
    assert_eq!(position_of_peer(&peers, &id(3, 0)), None);
    assert!(contains_peer(&peers, &id(2, 0)));
    assert!(!contains_peer(&peers, &id(3, 0)));
}
