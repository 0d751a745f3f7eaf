use audio_eq::text::{chars_of, contains_chars, is_whitespace, parse_unsigned_chars, str_contains, trimmed_chars};

fn chars(s: &str) -> Vec<char> {
    s.chars().collect()
}

#[test]
fn trim_removes_ascii_whitespace_on_both_ends() {
    assert_eq!(trimmed_chars("  \t1 \r\n"), vec!['1']);
}

#[test]
fn trim_removes_unicode_whitespace() {
    assert_eq!(trimmed_chars("\u{a0}42\u{3000}"), vec!['4', '2']);
    assert_eq!(trimmed_chars("\u{2003}a b\u{2028}"), vec!['a', ' ', 'b']);
}

#[test]
fn trim_of_blank_is_empty() {
    assert_eq!(trimmed_chars(" \n\t "), Vec::<char>::new());
    assert_eq!(trimmed_chars(""), Vec::<char>::new());
}

#[test]
fn trim_agrees_with_std() {
    for s in ["  x  ", "\u{85}y\u{205f}", "z", "\u{200b}k", " a\u{1680}"] {
        assert_eq!(trimmed_chars(s), chars(s.trim()));
    }
}

#[test]
fn whitespace_matches_std() {
    for c in ['\t', ' ', '\u{a0}', '\u{2000}', '\u{200a}', '\u{3000}', 'a', '\u{200b}', '0'] {
        assert_eq!(is_whitespace(c), c.is_whitespace());
    }
}

#[test]
fn chars_of_keeps_order() {
    assert_eq!(chars_of("a\u{c2a4}b"), vec!['a', '\u{c2a4}', 'b']);
}

#[test]
fn parse_plain_and_plus_numbers() {
    assert_eq!(parse_unsigned_chars(&chars("42"), u32::MAX as u64), Some(42));
    assert_eq!(parse_unsigned_chars(&chars("+42"), u32::MAX as u64), Some(42));
    assert_eq!(parse_unsigned_chars(&chars("007"), u32::MAX as u64), Some(7));
}

#[test]
fn parse_rejects_what_std_rejects() {
    for s in ["", "+", "-", "-1", "1 2", "12a", "++1", " 1"] {
        assert_eq!(parse_unsigned_chars(&chars(s), u32::MAX as u64), None, "{:?}", s);
        assert!(s.parse::<u32>().is_err());
    }
}

#[test]
fn parse_respects_the_largest_value() {
    assert_eq!(parse_unsigned_chars(&chars("4294967295"), u32::MAX as u64), Some(4294967295));
    assert_eq!(parse_unsigned_chars(&chars("4294967296"), u32::MAX as u64), None);
    assert_eq!(parse_unsigned_chars(&chars("18446744073709551615"), u64::MAX), Some(u64::MAX));
    assert_eq!(parse_unsigned_chars(&chars("18446744073709551616"), u64::MAX), None);
}

#[test]
fn contains_finds_substrings() {
    assert!(contains_chars(&chars("stereo mix (realtek)"), &chars("stereo mix")));
    assert!(contains_chars(&chars("abc"), &chars("")));
    assert!(contains_chars(&chars(""), &chars("")));
    assert!(!contains_chars(&chars("ab"), &chars("abc")));
    assert!(!contains_chars(&chars("abd"), &chars("abc")));
    assert!(str_contains("xxabc", "abc"));
    assert!(!str_contains("xxab", "abc"));
}
