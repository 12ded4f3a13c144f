use bevy_mod_ffi::name::{decode_type_name, encode_type_name, is_valid_type_name};

#[test]
fn type_name_is_closed_by_one_nul() {
    assert_eq!(encode_type_name("Counter"), Some(b"Counter\0".to_vec()));
    assert_eq!(encode_type_name(""), Some(vec![0u8]));
    assert_eq!(
        encode_type_name("caf\u{e9}::T"),
        Some(vec![b'c', b'a', b'f', 0xC3, 0xA9, b':', b':', b'T', 0])
    );
}

#[test]
fn type_name_with_nul_is_turned_down() {
    assert_eq!(encode_type_name("a\0b"), None);
    assert!(!is_valid_type_name("a\0b"));
    assert!(!is_valid_type_name("\0"));
    assert!(is_valid_type_name("my_crate::Counter"));
}

#[test]
fn wire_name_round_trip() {
    let wire = encode_type_name("my_crate::Velocity").unwrap();
    assert_eq!(decode_type_name(&wire), Some(String::from("my_crate::Velocity")));
    let wire = encode_type_name("caf\u{e9}").unwrap();
    assert_eq!(decode_type_name(&wire), Some(String::from("caf\u{e9}")));
    assert_eq!(decode_type_name(&[0u8]), Some(String::new()));
}

#[test]
fn malformed_wire_name_is_turned_down() {
    assert_eq!(decode_type_name(&[]), None);
    assert_eq!(decode_type_name(b"Counter"), None);
    assert_eq!(decode_type_name(b"Cou\0nter\0"), None);
    assert_eq!(decode_type_name(b"Counter\0\0"), None);
    assert_eq!(decode_type_name(&[0xFF, 0xFE, 0]), None);
    assert_eq!(decode_type_name(&[0xC3, 0]), None);
    assert_eq!(decode_type_name(&[0xED, 0xA0, 0x80, 0]), None);
}
