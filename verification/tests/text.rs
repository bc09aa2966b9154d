use tilth::text::{
    contains, decimal_chars, find_char, find_from, is_space_char, lower_chars, matches_at,
    split_lines, starts_with, str_eq, string_of, to_chars, trim_chars, upper_chars,
};

fn v(s: &str) -> Vec<char> {
    s.chars().collect()
}

fn st(v: Vec<char>) -> String {
    v.into_iter().collect()
}

#[test]
fn chars_round_trip() {
    for s in ["", "abc", "héllo → wörld", "│ —"] {
        assert_eq!(to_chars(s), v(s));
        assert_eq!(string_of(&to_chars(s)), s);
    }
    assert!(str_eq("abc", "abc"));
    assert!(!str_eq("abc", "abd"));
    assert!(!str_eq("abc", "ab"));
}

#[test]
fn decimal_digits() {
    assert_eq!(st(decimal_chars(0)), "0");
    assert_eq!(st(decimal_chars(7)), "7");
    assert_eq!(st(decimal_chars(10)), "10");
    assert_eq!(st(decimal_chars(1234567890)), "1234567890");
    assert_eq!(st(decimal_chars(u128::MAX)), u128::MAX.to_string());
}

#[test]
fn whitespace_agrees_with_std() {
    for code in 0u32..0x3100 {
        if let Some(c) = char::from_u32(code) {
            assert_eq!(is_space_char(c), c.is_whitespace(), "U+{code:04X}");
        }
    }
    assert!(!is_space_char('\u{10FFFF}'));
}

#[test]
fn trim_agrees_with_std() {
    for s in [
        "", " ", "  a  ", "\t\na b\r\n", "\u{a0}x\u{3000}", "x", "  x", "x  ", "\u{2003}\u{2003}",
    ] {
        assert_eq!(st(trim_chars(&v(s))), s.trim(), "trim of {s:?}");
    }
}

#[test]
fn lines_agree_with_std() {
    for s in [
        "", "a", "a\n", "a\nb", "a\r\nb\r\n", "\n", "\n\n", "a\rb", "a\r", "\r\n", "a\n\nb", "\r",
        "x\r\r\ny",
    ] {
        let ours: Vec<String> = split_lines(&v(s)).into_iter().map(st).collect();
        let std: Vec<String> = s.lines().map(String::from).collect();
        assert_eq!(ours, std, "lines of {s:?}");
    }
}

#[test]
fn search_in_text() {
    let text = v("hello world");
    assert!(starts_with(&text, "hello"));
    assert!(starts_with(&text, ""));
    assert!(!starts_with(&text, "world"));
    assert!(!starts_with(&v("he"), "hello"));
    assert!(contains(&text, "o w"));
    assert!(contains(&text, ""));
    assert!(!contains(&text, "worlds"));
    assert!(matches_at(&text, &v("world"), 6));
    assert!(!matches_at(&text, &v("world"), 7));
    assert_eq!(find_from(&text, &v("o"), 0), Some(4));
    assert_eq!(find_from(&text, &v("o"), 5), Some(7));
    assert_eq!(find_from(&text, &v("o"), 8), None);
    assert_eq!(find_from(&text, &v(""), 11), Some(11));
    assert_eq!(find_from(&text, &v(""), 12), None);
    assert_eq!(find_char(&text, 'l', 0), Some(2));
    assert_eq!(find_char(&text, 'l', 4), Some(9));
    assert_eq!(find_char(&text, 'z', 0), None);
}

#[test]
fn ascii_case_agrees_with_std() {
    let s = "Hello, WORLD_42 äÄ [`{@";
    assert_eq!(st(lower_chars(&v(s))), s.to_ascii_lowercase());
    assert_eq!(st(upper_chars(&v(s))), s.to_ascii_uppercase());
}

#[test]
fn lossy_decoding_keeps_valid_text() {
    assert_eq!(tilth::bytes::decode_lossy("héllo → ok\n".as_bytes()), "héllo → ok\n");
    assert_eq!(tilth::bytes::decode_lossy(b""), "");
    assert_eq!(tilth::bytes::decode_lossy(b"a\xffb"), "a\u{fffd}b");
}
