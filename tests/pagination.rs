use gitlab_metrics::pagination::{parse_count, resolve_total};

#[test]
fn missing_total_header_resolves_to_zero() {
    assert_eq!(resolve_total(None), 0);
}

#[test]
fn non_numeric_total_header_resolves_to_zero() {
    assert_eq!(resolve_total(Some(b"abc".as_slice())), 0);
    assert_eq!(resolve_total(Some(b"12a".as_slice())), 0);
    assert_eq!(resolve_total(Some(b"".as_slice())), 0);
    assert_eq!(resolve_total(Some(b"+".as_slice())), 0);
    assert_eq!(resolve_total(Some(b"-1".as_slice())), 0);
    assert_eq!(resolve_total(Some(b" 5".as_slice())), 0);
}

#[test]
fn numeric_total_header_resolves_exactly() {
    assert_eq!(resolve_total(Some(b"42".as_slice())), 42);
    assert_eq!(resolve_total(Some(b"0".as_slice())), 0);
    assert_eq!(resolve_total(Some(b"+7".as_slice())), 7);
    assert_eq!(resolve_total(Some(b"007".as_slice())), 7);
    assert_eq!(resolve_total(Some(b"1234567".as_slice())), 1234567);
}

#[test]
fn total_header_at_and_past_the_largest_count() {
    assert_eq!(resolve_total(Some(b"4294967295".as_slice())), u32::MAX);
    assert_eq!(resolve_total(Some(b"4294967296".as_slice())), 0);
    assert_eq!(resolve_total(Some(b"99999999999999999999".as_slice())), 0);
}

#[test]
fn parse_count_matches_std_parse() {
    for text in ["0", "9", "+12", "4294967295", "4294967296", "", "+", "x1", "1x", "-0"] {
        let expected: Option<u32> = text.parse().ok();
        assert_eq!(parse_count(text.as_bytes()), expected, "{}", text);
    }
}
