use input_command::{deserialize, serialize, Command, CommandKey, Key};

#[test]
fn serialize_canonical_text() {
    let c = deserialize("h4(60)[10] > p6[10] > pC[10]").unwrap();
    assert_eq!(serialize(&c), "h4[10](60)>p6[10]>pC[10]");
    let c = deserialize("h 4 [ 8 ] ( 60 ) > n A1 > f 9 > r 2").unwrap();
    assert_eq!(serialize(&c), "h4[8](60)>n1A>f9>r2");
}

#[test]
fn serialize_key_order() {
    let bits = Key::A | Key::D | Key::FORWARD | Key::UP | Key::BU | Key::FD;
    let c = Command::new(vec![CommandKey::Push { key: Key::from_bits_truncate(bits), buffer_frame: Some(0) }]);
    assert_eq!(serialize(&c), "p6837AD[0]");
}

#[test]
fn round_trip_through_text() {
    let steps = vec![
        CommandKey::Hold {
            key: Key::from_bits_truncate(Key::BACKWARD | Key::BD),
            buffer_frame: Some(4294967295),
            hold_frame: Some(0),
        },
        CommandKey::Release { key: Key::from_bits_truncate(Key::FU), buffer_frame: None },
        CommandKey::On { key: Key::from_bits_truncate(Key::A | Key::B | Key::C | Key::D) },
        CommandKey::Off { key: Key::from_bits_truncate(Key::DOWN) },
        CommandKey::Push { key: Key::from_bits_truncate(Key::C), buffer_frame: Some(120) },
    ];
    let c = Command::new(steps.clone());
    let text = serialize(&c);
    let back = deserialize(&text).unwrap();
    assert_eq!(back.keys(), &steps[..]);
}

#[test]
fn key_set_operations() {
    let a = Key::from_bits_truncate(Key::A);
    let ab = a.union(Key::from_bits_truncate(Key::B));
    assert!(ab.contains(a));
    assert!(!a.contains(ab));
    assert!(ab.contains(Key::empty()));
    assert!(Key::empty().is_empty());
    assert_eq!(Key::from_bits_truncate(0xffff).bits(), 0x1fff);
}
