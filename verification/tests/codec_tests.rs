use mutual_friends::codec::{decode, encode};
use mutual_friends::errors::Error;

#[test]
fn encode_then_decode_returns_original_string() {
    let s = "usr_12345678-9abc-def0-1234-56789abcdef0";
    let x = encode(s.as_bytes()).unwrap();
    let back = decode(x);
    assert_eq!(back, s.as_bytes().to_vec());
}

#[test]
fn encode_exact_value() {
    let s = "usr_00000000-0000-0000-0000-000000000009";
    assert_eq!(encode(s.as_bytes()).unwrap(), 9u128);
    let t = "usr_00000000-0000-0000-0000-0000000000ff";
    assert_eq!(encode(t.as_bytes()).unwrap(), 255u128);
}

#[test]
fn decode_exact_string() {
    let out = decode(9u128);
    assert_eq!(out, b"usr_00000000-0000-0000-0000-000000000009".to_vec());
    let out = decode(u128::MAX);
    assert_eq!(out, b"usr_ffffffff-ffff-ffff-ffff-ffffffffffff".to_vec());
}

#[test]
fn decode_then_encode_returns_original_value() {
    for x in [0u128, 5, 9, 42, 1 << 77, u128::MAX] {
        let s = decode(x);
        assert_eq!(encode(&s).unwrap(), x);
    }
}

#[test]
fn encode_rejects_wrong_length() {
    assert_eq!(encode(b"usr_1234"), Err(Error::FormatError));
    assert_eq!(encode(b""), Err(Error::FormatError));
}

#[test]
fn encode_rejects_wrong_prefix() {
    let s = "grp_12345678-9abc-def0-1234-56789abcdef0";
    assert_eq!(encode(s.as_bytes()), Err(Error::FormatError));
}

#[test]
fn encode_rejects_wrong_punctuation() {
    let s = "usr_12345678_9abc-def0-1234-56789abcdef0";
    assert_eq!(encode(s.as_bytes()), Err(Error::FormatError));
}

#[test]
fn encode_rejects_non_hex_digit() {
    let s = "usr_1234567g-9abc-def0-1234-56789abcdef0";
    assert_eq!(encode(s.as_bytes()), Err(Error::FormatError));
}

#[test]
fn encode_rejects_uppercase_hex() {
    let s = "usr_12345678-9ABC-def0-1234-56789abcdef0";
    assert_eq!(encode(s.as_bytes()), Err(Error::FormatError));
}
