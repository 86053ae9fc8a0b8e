use moqu::crypto::Key;

#[test]
fn key_from_hex_text() {
    let k = Key::from_hex("000102030405060708090a0B0c0D0e0F").unwrap();
    assert_eq!(k.bytes, [0, 1, 2, 3, 4, 5, 6, 7, 8, 9, 10, 11, 12, 13, 14, 15]);
}

#[test]
fn key_from_hex_skips_whitespace_and_pads() {
    let k = Key::from_hex(" ff\n01\t\r").unwrap();
    assert_eq!(k.bytes, [0xff, 1, 0, 0, 0, 0, 0, 0, 0, 0, 0, 0, 0, 0, 0, 0]);
}

#[test]
fn key_from_bad_hex_text() {
    assert!(Key::from_hex("abc").is_none());
    assert!(Key::from_hex("zz").is_none());
    assert!(Key::from_hex("é0").is_none());
}

#[test]
fn key_to_hex_text() {
    let k = Key::from_bytes(&[0xab, 0x01, 0xf0]);
    assert_eq!(k.to_hex(), "ab01f000000000000000000000000000");
    let back = Key::from_hex(&k.to_hex()).unwrap();
    assert_eq!(back.bytes, k.bytes);
}
