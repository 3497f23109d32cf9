use spr::oid::Oid;
use spr::text::{decimal_text, join2, join3, strip_prefix};

#[test]
fn numbers_are_written_in_decimal() {
    assert_eq!(decimal_text(0), "0");
    assert_eq!(decimal_text(9), "9");
    assert_eq!(decimal_text(10), "10");
    assert_eq!(decimal_text(1234567890), "1234567890");
    assert_eq!(decimal_text(u64::MAX), u64::MAX.to_string());
}

#[test]
fn pieces_are_joined() {
    assert_eq!(join2("Größe ", "→"), "Größe →");
    assert_eq!(join3("a", "", "b"), "ab");
}

#[test]
fn prefixes_come_off() {
    assert_eq!(strip_prefix("origin/spr/x", "origin/"), Some("spr/x".into()));
    assert_eq!(strip_prefix("origin/", "origin/"), Some("".into()));
    assert_eq!(strip_prefix("origin", "origin/"), None);
    assert_eq!(strip_prefix("upstream/x", "origin/"), None);
    assert_eq!(strip_prefix("ö/ä", "ö/"), Some("ä".into()));
    assert_eq!(strip_prefix("x", ""), Some("x".into()));
}

#[test]
fn objects_are_equal_by_their_bytes() {
    let one = Oid { bytes: [7; 20] };
    let mut other = one;
    assert!(one == other);
    other.bytes[19] = 8;
    assert!(one != other);
}
