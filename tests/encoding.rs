use mailcatcher::encoding::hex_byte;

#[test]
fn hex_decoding() {
    assert_eq!(hex_byte(&"00".to_owned()), Some(0));
    assert_eq!(hex_byte(&"10".to_owned()), Some(0x10));
    assert_eq!(hex_byte(&"FF".to_owned()), Some(255));
}

#[test]
fn hex_decoding_rejects_other_text() {
    assert_eq!(hex_byte("ff"), None);
    assert_eq!(hex_byte("0"), None);
    assert_eq!(hex_byte("100"), None);
    assert_eq!(hex_byte("G0"), None);
    assert_eq!(hex_byte("3D"), Some(0x3d));
}
