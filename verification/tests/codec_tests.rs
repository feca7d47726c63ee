use node_speedtest::codec::b64_decode_checked;

#[test]
fn canonical_base64_decodes_and_anything_else_fails() {
    assert_eq!(b64_decode_checked(b"aGVsbG8=").unwrap(), b"hello");
    assert_eq!(b64_decode_checked(b"").unwrap(), b"");
    assert!(b64_decode_checked(b"aGVsbG8").is_none());
    assert!(b64_decode_checked(b"aGVsbG9=").is_none());
    assert!(b64_decode_checked(b"aGV sbG8=").is_none());
}
