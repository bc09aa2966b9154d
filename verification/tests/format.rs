use tilth::format::{binary_header, file_header, format_size, number_lines, search_header};
use tilth::types::{estimate_tokens, ViewMode};

#[test]
fn file_header_small_file() {
    assert_eq!(
        file_header("src/main.rs", 400, 12, ViewMode::Full),
        "# src/main.rs (12 lines, ~100 tokens) [full]"
    );
}

#[test]
fn file_header_thousands_use_k() {
    // 5_000 bytes are 1_250 tokens: one decimal, rounded down.
    assert_eq!(
        file_header("a.ts", 5_000, 104, ViewMode::Outline),
        "# a.ts (104 lines, ~1.2k tokens) [outline]"
    );
    assert_eq!(
        file_header("a.ts", 4_000, 1, ViewMode::Keys),
        "# a.ts (1 lines, ~1.0k tokens) [keys]"
    );
    assert_eq!(
        file_header("a.ts", 3_999, 1, ViewMode::Section),
        "# a.ts (1 lines, ~999 tokens) [section]"
    );
}

#[test]
fn file_header_empty_and_generated() {
    assert_eq!(
        file_header("x", 0, 0, ViewMode::Empty),
        "# x (0 lines, ~0 tokens) [empty]"
    );
    assert_eq!(
        file_header("x.lock", 40_000_000, 900_000, ViewMode::Generated),
        "# x.lock (900000 lines, ~10000.0k tokens) [generated]"
    );
}

#[test]
fn token_estimate_is_a_quarter() {
    assert_eq!(estimate_tokens(0), 0);
    assert_eq!(estimate_tokens(3), 0);
    assert_eq!(estimate_tokens(4), 1);
    assert_eq!(estimate_tokens(6_001), 1_500);
    assert_eq!(estimate_tokens(u64::MAX), u64::MAX / 4);
}

#[test]
fn format_size_units() {
    assert_eq!(format_size(0), "0B");
    assert_eq!(format_size(1023), "1023B");
    assert_eq!(format_size(1024), "1KB");
    assert_eq!(format_size(1024 * 1024 - 1), "1023KB");
    assert_eq!(format_size(1024 * 1024), "1.0MB");
    assert_eq!(format_size(1024 * 1024 * 3 / 2), "1.5MB");
    assert_eq!(format_size(u64::MAX), "17592186044415.9MB");
}

#[test]
fn binary_header_text() {
    assert_eq!(
        binary_header("logo.png", 2048, "image/png"),
        "# logo.png (binary, 2KB, image/png) [skipped]"
    );
}

#[test]
fn search_header_without_definitions() {
    assert_eq!(
        search_header("foo", "src", 3, 0, 3),
        "# Search: \"foo\" in src — 3 matches (0 definitions, 3 usages)"
    );
}

#[test]
fn search_header_with_definitions() {
    assert_eq!(
        search_header("foo", ".", 12, 2, 10),
        "# Search: \"foo\" in . — 12 matches (2 definitions, 10 usages)"
    );
}

#[test]
fn number_lines_right_aligns() {
    assert_eq!(number_lines("a\nb\n", 1), "1  a\n2  b\n");
    // Lines 9 and 10: the width is that of 9 + 2 = 11.
    assert_eq!(number_lines("x\ny", 9), " 9  x\n10  y\n");
    assert_eq!(number_lines("only", 99), " 99  only\n");
    assert_eq!(number_lines("", 5), "");
}

#[test]
fn number_lines_handles_crlf_and_blank_lines() {
    assert_eq!(number_lines("a\r\n\r\nb\r", 1), "1  a\n2  \n3  b\r\n");
    assert_eq!(number_lines("\n\n", 0), "0  \n1  \n");
}

#[test]
fn number_lines_section_of_eleven_lines() {
    let body = "l10\nl11\nl12\nl13\nl14\nl15\nl16\nl17\nl18\nl19\nl20\n";
    let out = number_lines(body, 10);
    assert_eq!(out.lines().count(), 11);
    assert!(out.starts_with("10  l10\n"));
    assert!(out.ends_with("20  l20\n"));
}
