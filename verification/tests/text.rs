use weight_cdn_pinner::text::{
    chars_of, join_text, decimal, digit_of, ends_with, number_chars, parse_u64, same_text,
    split_fields, starts_with, string_of, to_lower, trimmed, trimmed_start_of,
};

#[test]
fn characters_are_classified_as_by_the_standard_library() {
    for c in '\0'..=char::MAX {
        assert_eq!(trimmed(&[c]).is_empty(), c.is_whitespace(), "{c:?}");
        assert_eq!(to_lower(&[c]), vec![c.to_ascii_lowercase()]);
        assert_eq!(digit_of(c), c.to_digit(16).unwrap_or(16));
    }
}

#[test]
fn trimming_takes_both_ends() {
    for text in ["", " ", " a b ", "\t\u{3000}x\u{2003}\n", "abc", "  a", "a  "] {
        assert_eq!(string_of(trimmed(&chars_of(text))), text.trim());
    }
    for text in ["", "**", "*.x", "..x.", "x**"] {
        let chars = chars_of(text);
        assert_eq!(string_of(trimmed_start_of(&chars, '*')), text.trim_start_matches('*'));
        assert_eq!(string_of(trimmed_start_of(&chars, '.')), text.trim_start_matches('.'));
    }
}

#[test]
fn splitting_keeps_empty_fields() {
    for text in ["", ",", "a", "a,b", ",a,,b,", "\u{e4},\u{f6}"] {
        let fields: Vec<String> =
            split_fields(&chars_of(text), ',').iter().map(|f| string_of(f)).collect();
        assert_eq!(fields, text.split(',').collect::<Vec<_>>());
    }
}

#[test]
fn prefixes_and_suffixes_are_found() {
    let s = chars_of("http://x");
    assert!(starts_with(&s, &chars_of("http://")));
    assert!(starts_with(&s, &[]));
    assert!(!starts_with(&s, &chars_of("https://")));
    assert!(!starts_with(&[], &chars_of("h")));
    assert!(ends_with(&s, &chars_of("/x")));
    assert!(!ends_with(&s, &chars_of("http://xx")));
    assert!(same_text("abc", "abc"));
    assert!(!same_text("abc", "abd"));
    assert!(!same_text("abc", "ab"));
    assert_eq!(join_text("ab", "c"), "abc");
}

#[test]
fn numbers_are_written_and_read() {
    for n in [0, 1, 9, 10, 11, 99, 100, 255, 256, 65535, 65536, u64::MAX - 1, u64::MAX] {
        assert_eq!(decimal(n), n.to_string());
        assert_eq!(string_of(&number_chars(n, 16)), format!("{n:x}"));
        assert_eq!(string_of(&number_chars(n, 2)), format!("{n:b}"));
        assert_eq!(parse_u64(&n.to_string()), Some(n));
    }
}
