//! The parameter codec, the string helpers, and the wire framing.

use tictac_core::params::decode;
use tictac_core::strutil::{parse_u32, replace_all, u32_to_string};
use tictac_core::wire::{build_frame, parse_frame, FrameError};

#[test]
fn decode_two_pairs() {
    let m = decode("a=1&b=2");
    assert_eq!(m.len(), 2);
    assert_eq!(m.get("a").unwrap(), "1");
    assert_eq!(m.get("b").unwrap(), "2");
}

#[test]
fn decode_skips_malformed_middle_pair() {
    let m = decode("a=1&bad&c=3");
    assert_eq!(m.len(), 2);
    assert_eq!(m.get("a").unwrap(), "1");
    assert_eq!(m.get("c").unwrap(), "3");
    assert!(m.get("bad").is_none());
}

#[test]
fn decode_empty_input() {
    let m = decode("");
    assert!(m.is_empty());
}

#[test]
fn decode_entirely_malformed() {
    let m = decode("noequals&x=y=z&&");
    assert!(m.is_empty());
}

#[test]
fn decode_empty_key_and_value_tolerated() {
    let m = decode("=v&k=");
    assert_eq!(m.len(), 2);
    assert_eq!(m.get("").unwrap(), "v");
    assert_eq!(m.get("k").unwrap(), "");
}

#[test]
fn decode_later_pair_wins() {
    let m = decode("a=1&a=2");
    assert_eq!(m.len(), 1);
    assert_eq!(m.get("a").unwrap(), "2");
}

#[test]
fn decode_keeps_order() {
    let m = decode("b=2&a=1");
    assert_eq!(m.pair_at(0).0, "b");
    assert_eq!(m.pair_at(1).0, "a");
}

#[test]
fn parse_u32_accepts_plain_numerals() {
    assert_eq!(parse_u32("0"), Some(0));
    assert_eq!(parse_u32("42"), Some(42));
    assert_eq!(parse_u32("4294967295"), Some(u32::MAX));
}

#[test]
fn parse_u32_rejects_everything_else() {
    assert_eq!(parse_u32(""), None);
    assert_eq!(parse_u32("+1"), None);
    assert_eq!(parse_u32("-1"), None);
    assert_eq!(parse_u32("4294967296"), None);
    assert_eq!(parse_u32("12a"), None);
}

#[test]
fn u32_to_string_renders_decimal() {
    assert_eq!(u32_to_string(0), "0");
    assert_eq!(u32_to_string(307), "307");
    assert_eq!(u32_to_string(u32::MAX), "4294967295");
}

#[test]
fn replace_all_replaces_every_occurrence() {
    assert_eq!(replace_all("a {x} b {x}", "{x}", "1"), "a 1 b 1");
    assert_eq!(replace_all("aaa", "aa", "b"), "ba");
    assert_eq!(replace_all("none here", "{x}", "1"), "none here");
    assert_eq!(replace_all("text", "", "1"), "text");
}

#[test]
fn frame_round_trip() {
    let f = build_frame(0, "{\"user_id\":1}");
    assert_eq!(f, "0:{\"user_id\":1}");
    let (op, payload) = parse_frame(&f).unwrap();
    assert_eq!(op, 0);
    assert_eq!(payload, "{\"user_id\":1}");
}

#[test]
fn frame_payload_may_hold_colons() {
    let (op, payload) = parse_frame("1:{\"a\":2}").unwrap();
    assert_eq!(op, 1);
    assert_eq!(payload, "{\"a\":2}");
}

#[test]
fn frame_without_separator_is_refused() {
    assert!(matches!(parse_frame("no separator"), Err(FrameError::MissingSeparator)));
}

#[test]
fn frame_with_bad_opcode_is_refused() {
    assert!(matches!(parse_frame("x:{}"), Err(FrameError::BadOpcode)));
    assert!(matches!(parse_frame(":{}"), Err(FrameError::BadOpcode)));
}
