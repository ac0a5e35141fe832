use kuadrant_praxis::text::{encode_i64_le, text_eq};

#[test]
fn encode_matches_to_le_bytes() {
    for v in [0i64, 1, -1, 8080, i64::MIN, i64::MAX, 1_700_000_000_000_000_123] {
        assert_eq!(encode_i64_le(v), v.to_le_bytes().to_vec());
    }
}

#[test]
fn encoded_bytes_decode_back() {
    for v in [0i64, -2, 443, i64::MAX] {
        let b = encode_i64_le(v);
        let arr: [u8; 8] = b.as_slice().try_into().expect("eight bytes");
        assert_eq!(i64::from_le_bytes(arr), v);
    }
}

#[test]
fn text_equality() {
    assert!(text_eq("request.host", "request.host"));
    assert!(!text_eq("request.host", "request.hos"));
    assert!(!text_eq("a", "b"));
    assert!(text_eq("", ""));
}
