//! Tests for the hex codec, ASCII case folding, and the watermark map.

use topic_sync::ascii::{to_lower, to_upper};
use topic_sync::hex::{hex_decode, hex_decode_strict, hex_encode};
use topic_sync::sync_map::SyncMap;

#[test]
fn hex_encode_exact_value() {
    let out = hex_encode(&[0x00, 0x0f, 0xa5, 0xff]);
    assert_eq!(out, b"000fa5ff".to_vec());
}

#[test]
fn hex_decode_both_cases() {
    assert_eq!(hex_decode(b"000fa5ff"), Some(vec![0x00, 0x0f, 0xa5, 0xff]));
    assert_eq!(hex_decode(b"000FA5FF"), Some(vec![0x00, 0x0f, 0xa5, 0xff]));
    assert_eq!(hex_decode(b"abc"), None);
    assert_eq!(hex_decode(b"zz"), None);
    assert_eq!(hex_decode(b""), Some(Vec::new()));
}

#[test]
fn hex_decode_strict_wants_lowercase() {
    assert_eq!(hex_decode_strict(b"a5ff"), Some(vec![0xa5, 0xff]));
    assert_eq!(hex_decode_strict(b"A5FF"), None);
}

#[test]
fn hex_round_trip() {
    let bytes: Vec<u8> = (0u16..=255).map(|b| b as u8).collect();
    let digits = hex_encode(&bytes);
    assert_eq!(hex_decode(&digits), Some(bytes));
}

#[test]
fn ascii_case_folds() {
    assert_eq!(to_lower(b"AbC2!z"), b"abc2!z".to_vec());
    assert_eq!(to_upper(b"AbC2!z"), b"ABC2!Z".to_vec());
}

#[test]
fn sync_map_inserts_and_replaces() {
    let mut m = SyncMap::new();
    assert_eq!(m.len(), 0);
    m.insert(String::from("a"), 10);
    m.insert(String::from("b"), 20);
    assert_eq!(m.len(), 2);
    assert_eq!(m.get(&String::from("a")), Some(10));
    m.insert(String::from("a"), 30);
    assert_eq!(m.len(), 2);
    assert_eq!(m.get(&String::from("a")), Some(30));
    assert_eq!(m.get(&String::from("c")), None);
}
