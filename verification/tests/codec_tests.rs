use libmount::codec::{
    append_escape, is_oct, is_octal_encoding, kernel_style_encode, parse_octal, unescape_octals,
};

#[test]
fn test_is_octal_encoding() {
    assert!(is_octal_encoding(b"\\000"));
    assert!(is_octal_encoding(b"\\123"));
    assert!(is_octal_encoding(b"\\777"));
    assert!(!is_octal_encoding(b""));
    assert!(!is_octal_encoding(b"\\"));
    assert!(!is_octal_encoding(b"000"));
    assert!(!is_octal_encoding(b"\\00"));
    assert!(!is_octal_encoding(b"\\800"));
}

#[test]
fn test_parse_octal() {
    assert_eq!(parse_octal(b"000"), 0);
    assert_eq!(parse_octal(b"123"), 83);
    assert_eq!(parse_octal(b"377"), 255);
    // out-of-range escapes are truncated, not rejected
    assert_eq!(parse_octal(b"777"), 255);
}

#[test]
fn test_is_oct() {
    assert!(is_oct(b'0'));
    assert!(is_oct(b'7'));
    assert!(!is_oct(b'8'));
    assert!(!is_oct(b'a'));
}

#[test]
fn test_unescape_octals() {
    assert_eq!(unescape_octals(b"\\000"), b"\x00".to_vec());
    assert_eq!(unescape_octals(b"\\00"), b"\\00".to_vec());
    assert_eq!(unescape_octals(b"test\\040data"), b"test data".to_vec());
}

#[test]
fn test_unescape_identity_without_escaped_bytes() {
    // none of space, tab, newline, backslash: decode is the identity
    let plain = b"/var/lib/data.01-x_y+z".to_vec();
    assert_eq!(unescape_octals(&plain), plain);
}

#[test]
fn test_unescape_leaves_malformed_escapes() {
    // a backslash followed by fewer than three octal digits, or by
    // non-octal digits, passes through byte for byte
    assert_eq!(unescape_octals(b"a\\1b"), b"a\\1b".to_vec());
    assert_eq!(unescape_octals(b"a\\12"), b"a\\12".to_vec());
    assert_eq!(unescape_octals(b"a\\8 9"), b"a\\8 9".to_vec());
    assert_eq!(unescape_octals(b"tail\\"), b"tail\\".to_vec());
}

#[test]
fn test_kernel_escape_round_trip() {
    let samples: Vec<Vec<u8>> = vec![
        b"".to_vec(),
        b"/plain/path".to_vec(),
        b"/with space/and\ttab/and\nnewline/and\\backslash".to_vec(),
        b"\\040".to_vec(),
        (0u8..=255u8).collect(),
    ];
    for s in samples {
        let encoded = kernel_style_encode(&s);
        assert_eq!(unescape_octals(&encoded), s);
    }
}

#[test]
fn test_kernel_escape_emits_three_digits() {
    assert_eq!(kernel_style_encode(b" "), b"\\040".to_vec());
    assert_eq!(kernel_style_encode(b"\t"), b"\\011".to_vec());
    assert_eq!(kernel_style_encode(b"\n"), b"\\012".to_vec());
    assert_eq!(kernel_style_encode(b"\\"), b"\\134".to_vec());
    assert_eq!(kernel_style_encode(b"a b"), b"a\\040b".to_vec());
}

#[test]
fn test_append_escape() {
    let mut buf: Vec<u8> = Vec::new();
    append_escape(&mut buf, b"/pl:ain,dir\\x");
    assert_eq!(buf, b"/pl\\:ain\\,dir\\\\x".to_vec());
}
