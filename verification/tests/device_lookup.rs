use rpk::device_lookup::{keyboard_matches, parse_hex};

#[test]
fn hex_ids_with_and_without_prefix() {
    assert_eq!(parse_hex(None).unwrap(), None);
    assert_eq!(parse_hex(Some("0x1209")).unwrap(), Some(0x1209));
    assert_eq!(parse_hex(Some("0X12ab")).unwrap(), Some(0x12ab));
    assert_eq!(parse_hex(Some("feed")).unwrap(), Some(0xfeed));
    assert_eq!(parse_hex(Some("+10")).unwrap(), Some(0x10));
}

#[test]
fn bad_hex_ids_are_refused() {
    assert!(parse_hex(Some("zz")).is_err());
    assert!(parse_hex(Some("0x")).is_err());
    assert!(parse_hex(Some("")).is_err());
    assert!(parse_hex(Some("0x10000")).is_err());
    assert!(parse_hex(Some("0x0x1")).is_err());
}

#[test]
fn keyboards_match_the_lookup() {
    assert!(keyboard_matches(Some("rpk:1"), 1, 2, None, None, ""));
    assert!(!keyboard_matches(Some("abc:1"), 1, 2, None, None, ""));
    assert!(!keyboard_matches(None, 1, 2, None, None, ""));
    assert!(!keyboard_matches(Some("rpk"), 1, 2, None, None, ""));
    assert!(keyboard_matches(Some("rpk:1"), 1, 2, Some(1), Some(2), "rpk:1"));
    assert!(!keyboard_matches(Some("rpk:1"), 1, 2, Some(3), None, ""));
    assert!(!keyboard_matches(Some("rpk:1"), 1, 2, None, Some(3), ""));
    assert!(!keyboard_matches(Some("rpk:1"), 1, 2, None, None, "rpk:2"));
}
