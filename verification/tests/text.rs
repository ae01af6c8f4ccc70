use tickets_ui::text::{
    contains_char, ends_with, find_chars, first_line_chars, from_chars, nth_word, read_decimal,
    spells, spells_ignoring_case, split_once_chars, starts_with, to_chars, trim_chars,
    trim_end_chars, write_decimal, CharClass,
};

fn chars(s: &str) -> Vec<char> {
    s.chars().collect()
}

fn text(c: &[char]) -> String {
    c.iter().collect()
}

#[test]
fn characters_round_trip() {
    let s = "a\u{e9}\u{4e2d}\u{1f600}\0";
    assert_eq!(to_chars(s), chars(s));
    assert_eq!(from_chars(&chars(s)), s);
    assert_eq!(from_chars(&[]), "");
}

#[test]
fn whitespace_is_the_unicode_property() {
    for code in 0..=0x10ffffu32 {
        if let Some(c) = char::from_u32(code) {
            assert_eq!(CharClass::Whitespace.contains(c), c.is_whitespace(), "{:x}", code);
            assert_eq!(
                CharClass::AsciiWhitespace.contains(c),
                c.is_ascii_whitespace(),
                "{:x}",
                code
            );
            assert_eq!(CharClass::Nul.contains(c), c == '\0', "{:x}", code);
        }
    }
}

#[test]
fn finding_agrees_with_the_standard_library() {
    for (s, p) in [
        ("abcabc", "ca"),
        ("abcabc", "abc"),
        ("aab", "ab"),
        ("", "x"),
        ("x", "xx"),
        ("abc", ""),
        ("", ""),
        ("ends with x", "x"),
    ] {
        assert_eq!(find_chars(&chars(s), &chars(p)), s.find(p), "{:?} in {:?}", p, s);
    }
}

#[test]
fn splitting_once_takes_the_first_separator() {
    let s = chars("k=v=w");
    let (a, b) = split_once_chars(&s, &['=']).unwrap();
    assert_eq!((text(a), text(b)), ("k".to_string(), "v=w".to_string()));
    assert!(split_once_chars(&chars("kv"), &['=']).is_none());
    let s = chars("=");
    let (a, b) = split_once_chars(&s, &['=']).unwrap();
    assert!(a.is_empty() && b.is_empty());
}

#[test]
fn words_agree_with_the_standard_library() {
    for s in [
        "GET / HTTP/1.1",
        "  lead",
        "one",
        "",
        "  ",
        "a\u{a0}b\u{2003}c",
        "tab\tand\u{b}vertical",
    ] {
        let c = chars(s);
        for k in 0..4 {
            assert_eq!(
                text(nth_word(&c, CharClass::Whitespace, k)),
                s.split_whitespace().nth(k).unwrap_or(""),
                "{:?} {}",
                s,
                k
            );
            assert_eq!(
                text(nth_word(&c, CharClass::AsciiWhitespace, k)),
                s.split_ascii_whitespace().nth(k).unwrap_or(""),
                "{:?} {}",
                s,
                k
            );
        }
    }
}

#[test]
fn trimming_agrees_with_the_standard_library() {
    for s in ["  a b\t", "", " \u{3000} ", "x", "\r\nv \n", "\u{a0}w\u{a0}"] {
        assert_eq!(text(trim_chars(&chars(s), CharClass::Whitespace)), s.trim());
    }
    for s in ["a\0\0", "\0", "\0a", "", "a\0b\0"] {
        assert_eq!(text(trim_end_chars(&chars(s), CharClass::Nul)), s.trim_end_matches('\0'));
    }
}

#[test]
fn first_line_agrees_with_the_standard_library() {
    for s in ["a\r\nb", "a\nb", "\n", "\r\n", "", "plain", "a\rb\nc", "a\r\r\nb"] {
        assert_eq!(text(first_line_chars(&chars(s))), s.lines().next().unwrap_or(""), "{:?}", s);
    }
}

#[test]
fn comparing() {
    assert!(spells(&chars("GET"), "GET"));
    assert!(!spells(&chars("GET"), "GETT"));
    assert!(!spells(&chars("get"), "GET"));
    assert!(spells_ignoring_case(&chars("CONTENT-length"), "content-length"));
    assert!(!spells_ignoring_case(&chars("content_length"), "content-length"));
    assert!(!spells_ignoring_case(&chars("\u{212a}"), "k"));
    assert!(starts_with(&chars("/t/1"), "/t/"));
    assert!(!starts_with(&chars("/t"), "/t/"));
    assert!(ends_with(&chars("/t/1/status"), "/status"));
    assert!(!ends_with(&chars("status"), "/status"));
    assert!(contains_char(&chars("a/b"), '/'));
    assert!(!contains_char(&chars("ab"), '/'));
}

#[test]
fn numbers_are_read_as_the_standard_library_reads_them() {
    for s in [
        "0", "7", "007", "+7", "+", "-", "-0", "", "65535", "65536", "99999999999999999999",
        "18446744073709551615", "18446744073709551616", "1 ", " 1", "1a", "++1", "\u{661}",
        "00000000000000000000000042",
    ] {
        assert_eq!(
            read_decimal(&chars(s), u16::MAX as u64),
            s.parse::<u16>().ok().map(|n| n as u64),
            "{:?}",
            s
        );
        assert_eq!(read_decimal(&chars(s), u64::MAX), s.parse::<u64>().ok(), "{:?}", s);
    }
    assert_eq!(read_decimal(&chars("3"), 2), None);
    assert_eq!(read_decimal(&chars("2"), 2), Some(2));
}

#[test]
fn numbers_round_trip() {
    for n in [0, 9, 10, 101, 65535, 1234567890, u64::MAX] {
        let d = write_decimal(n);
        assert_eq!(d, n.to_string());
        assert_eq!(read_decimal(&chars(&d), u64::MAX), Some(n));
    }
}
