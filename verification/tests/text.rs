use acestream_proxy::text::{ascii_text, decimal_text, parse_number, same};

#[test]
fn texts_are_compared_character_by_character() {
    assert!(same("", ""));
    assert!(same("h\u{e9}", "h\u{e9}"));
    assert!(!same("a", "ab"));
    assert!(!same("a", "b"));
}

#[test]
fn numbers_are_written_without_leading_zeros() {
    for n in [0, 9, 10, 99, 100, 1_000_000, u64::MAX] {
        assert_eq!(decimal_text(n), n.to_string());
    }
}

#[test]
fn numbers_are_read_back() {
    for n in [0, 7, 10, 65_535, u64::MAX - 1, u64::MAX] {
        assert_eq!(parse_number(&decimal_text(n)), Some(n));
    }
    for s in ["0", "+0", "007", "18446744073709551615", "", "+", "-1", "1 ", "\u{661}", "18446744073709551616", "99999999999999999999"] {
        assert_eq!(parse_number(s), s.parse::<u64>().ok(), "{s:?}");
    }
}

#[test]
fn bytes_become_characters_one_for_one() {
    assert_eq!(ascii_text(b"GET /"), "GET /");
    assert_eq!(ascii_text(b""), "");
}
