use ukmm::text::{parse_u32, str_eq};

#[test]
fn parses_like_std() {
    for s in ["0", "42", "+7", "007", "4294967295", "", "+", "-1", "4294967296", "1a", " 1", "٣"] {
        assert_eq!(parse_u32(s), s.parse::<u32>().ok(), "{s}");
    }
}

#[test]
fn text_equality() {
    assert!(str_eq("abc", "abc"));
    assert!(!str_eq("abc", "abd"));
    assert!(!str_eq("ab", "abc"));
}
