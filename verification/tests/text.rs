use atlas::text::{decimal_string, is_whitespace, sort_strings, split_whitespace, trimmed};

#[test]
fn whitespace_agrees_with_the_standard_library_on_every_char() {
    for code in 0u32..=0x10FFFF {
        if let Some(c) = char::from_u32(code) {
            assert_eq!(is_whitespace(c), c.is_whitespace(), "U+{code:04X}");
        }
    }
}

#[test]
fn trimmed_removes_unicode_whitespace_at_both_ends() {
    assert_eq!(trimmed("\u{3000} a b \n"), "a b");
    assert_eq!(trimmed("   "), "");
}

#[test]
fn split_whitespace_drops_empty_pieces() {
    assert_eq!(split_whitespace(" a\t\tb \nc "), vec!["a", "b", "c"]);
    assert!(split_whitespace(" \n ").is_empty());
}

#[test]
fn decimal_string_writes_digits() {
    assert_eq!(decimal_string(0), "0");
    assert_eq!(decimal_string(1234567), "1234567");
}

#[test]
fn sort_strings_orders_by_characters() {
    let sorted = sort_strings(vec!["b".to_string(), "a/x".to_string(), "a".to_string()]);
    assert_eq!(sorted, vec!["a", "a/x", "b"]);
}
