use ldapeditor::text::{is_whitespace, str_eq, str_eq_ignore_ascii_case, str_less, trim};

#[test]
fn white_space_matches_every_char() {
    for v in 0u32..=0x10FFFF {
        if let Some(c) = char::from_u32(v) {
            assert_eq!(is_whitespace(c), c.is_whitespace(), "U+{v:04X}");
        }
    }
}

#[test]
fn string_comparisons() {
    assert!(str_eq("cn=a", "cn=a"));
    assert!(!str_eq("cn=a", "cn=A"));
    assert!(!str_eq("cn", "cn="));
    assert!(str_eq("", ""));
    assert!(str_eq_ignore_ascii_case("TRUE", "true"));
    assert!(str_less("B", "a"));
    assert!(str_less("a", "ab"));
    assert!(!str_less("ab", "ab"));
    assert_eq!(trim("\u{3000} x \u{2028}"), "x");
}
