use tilth::cache::OutlineCache;
use tilth::error::TilthError;
use tilth::map::{ordered_names, render_map, MapEntry};
use tilth::read::file::{
    is_binary, is_generated_by_content, is_generated_by_name, read_file, ReadInput,
};
use tilth::read::outline::markdown::outline;
use tilth::read::section::{list_directory, parse_range, read_section, DirEntry, EntryKind};
use tilth::session::Session;
use tilth::text::truncate_str;

fn file(bytes: &[u8]) -> ReadInput {
    ReadInput::File { bytes: bytes.to_vec(), mtime: 7 }
}

fn never(_: bool) -> String {
    panic!("the outline is not needed")
}

#[test]
fn parse_range_accepts_start_end() {
    assert_eq!(parse_range("45-89"), Some((45, 89)));
    assert_eq!(parse_range(" 1 - 1 "), Some((1, 1)));
    assert_eq!(parse_range("+2-3"), Some((2, 3)));
    assert_eq!(parse_range("007-010"), Some((7, 10)));
    assert_eq!(parse_range("0-3"), None);
    assert_eq!(parse_range("5-2"), None);
    assert_eq!(parse_range("5"), None);
    assert_eq!(parse_range("a-b"), None);
    assert_eq!(parse_range("1-2-3"), None);
    assert_eq!(parse_range("-3"), None);
    assert_eq!(parse_range("3-"), None);
    assert_eq!(parse_range(""), None);
    assert_eq!(parse_range("1-99999999999999999999999"), None);
}

#[test]
fn section_of_a_file() {
    let buf = b"l1\nl2\nl3\nl4\n";
    assert_eq!(
        read_section("f.txt", buf, "2-3", false).unwrap(),
        "# f.txt (2 lines, ~1 tokens) [section]\n\n2  l2\n3  l3\n"
    );
    // A range past the end is cut at the end.
    assert_eq!(
        read_section("f.txt", buf, "4-9", false).unwrap(),
        "# f.txt (2 lines, ~0 tokens) [section]\n\n4  l4\n"
    );
    assert_eq!(
        read_section("f.txt", b"a\nb", "2-2", false).unwrap(),
        "# f.txt (1 lines, ~0 tokens) [section]\n\n2  b\n"
    );
}

#[test]
fn section_errors() {
    let buf = b"l1\nl2\nl3\nl4\n";
    match read_section("f.txt", buf, "9-12", false) {
        Err(TilthError::InvalidQuery { query, reason }) => {
            assert_eq!(query, "9-12");
            assert_eq!(reason, "range out of bounds (file has 5 lines)");
        }
        other => panic!("unexpected: {other:?}"),
    }
    match read_section("f.txt", buf, "abc", false) {
        Err(TilthError::InvalidQuery { query, reason }) => {
            assert_eq!(query, "abc");
            assert_eq!(reason, "expected format: \"start-end\" (e.g. \"45-89\")");
        }
        other => panic!("unexpected: {other:?}"),
    }
    assert!(read_section("f.txt", b"", "1-1", false).is_ok());
    assert!(read_section("f.txt", b"", "2-2", false).is_err());
}

#[test]
fn section_ten_to_twenty_has_eleven_lines() {
    let mut readme = String::new();
    for i in 1..=30 {
        readme.push_str(&format!("readme line {i}\n"));
    }
    let out = read_section("README.md", readme.as_bytes(), "10-20", false).unwrap();
    let mut lines = out.lines();
    let header = lines.next().unwrap();
    assert!(header.starts_with("# README.md (11 lines, ~"));
    assert!(header.ends_with(" tokens) [section]"));
    assert_eq!(lines.next(), Some(""));
    let numbered: Vec<&str> = lines.collect();
    assert_eq!(numbered.len(), 11);
    assert_eq!(numbered[0], "10  readme line 10");
    assert_eq!(numbered[10], "20  readme line 20");
}

#[test]
fn directory_listing_sorted_by_name() {
    let entries = vec![
        DirEntry { name: "src".to_string(), kind: EntryKind::Directory, byte_len: Some(4096) },
        DirEntry { name: "README.md".to_string(), kind: EntryKind::Other, byte_len: Some(401) },
        DirEntry { name: "link".to_string(), kind: EntryKind::Symlink, byte_len: None },
        DirEntry { name: "broken".to_string(), kind: EntryKind::Other, byte_len: None },
    ];
    assert_eq!(
        list_directory("proj", entries),
        "# proj (4 items)\n\n  README.md  (100 tokens)\n  broken\n  link →\n  src/"
    );
    assert_eq!(list_directory("empty", Vec::new()), "# empty (0 items)\n\n");
}

#[test]
fn markdown_outline_lists_headings() {
    let buf = b"# Title\n\nSome text\n## Section A\n```rust\n# not a heading\n```\n### Sub\n####### seven\n#NoSpace\n";
    assert_eq!(
        outline(buf, 100),
        "[1] Title\n[4]   Section A\n[8]     Sub\n[10] NoSpace\n\n(1 code blocks)"
    );
    assert_eq!(outline(buf, 2), "[1] Title\n[4]   Section A");
    assert_eq!(outline(b"", 10), "");
    assert_eq!(outline(b"plain\ntext", 10), "");
    assert_eq!(outline(b"```\n```\n```\n", 10), "\n(2 code blocks)");
    assert_eq!(outline(b"###### six\r\n#", 10), "[1]           six\r\n[2] ");
}

#[test]
fn markdown_outline_truncates_and_skips_bad_text() {
    let long = format!("# {}", "x".repeat(90));
    assert_eq!(outline(long.as_bytes(), 10), format!("[1] {}...", "x".repeat(77)));
    let exact = format!("# {}", "y".repeat(80));
    assert_eq!(outline(exact.as_bytes(), 10), format!("[1] {}", "y".repeat(80)));
    // 27 three-byte characters are 81 bytes; 25 of them fit into 77.
    let wide = format!("## {}", "→".repeat(27));
    assert_eq!(outline(wide.as_bytes(), 10), format!("[1]   {}...", "→".repeat(25)));
    assert_eq!(outline(b"# bad \xff\n## good\n", 10), "[2]   good");
}

#[test]
fn truncate_at_character_boundary() {
    assert_eq!(truncate_str("hello", 10), "hello");
    assert_eq!(truncate_str("hello", 3), "hel");
    assert_eq!(truncate_str("héllo", 2), "h");
    assert_eq!(truncate_str("héllo", 3), "hé");
    assert_eq!(truncate_str("→→", 5), "→");
    assert_eq!(truncate_str("abc", 0), "");
}

#[test]
fn binary_detection() {
    assert!(is_binary(b"abc\0def"));
    assert!(!is_binary(b"plain text\nwith lines\r\n\tand tabs"));
    assert!(!is_binary(b""));
    // Three of ten bytes are not above thirty percent; four are.
    assert!(!is_binary(b"\x01\x01\x01aaaaaaa"));
    assert!(is_binary(b"\x01\x01\x01\x7faaaaaa"));
    let mut late = vec![b'a'; 8192];
    late.push(0);
    assert!(!is_binary(&late));
}

#[test]
fn generated_detection() {
    assert!(is_generated_by_content(b"// @generated by tool\nfn x() {}"));
    assert!(is_generated_by_content(b"# DO NOT EDIT\n"));
    assert!(!is_generated_by_content(b"# do not edit\n"));
    assert!(!is_generated_by_content(b""));
    let mut late = vec![b' '; 2048];
    late.extend_from_slice(b"@generated");
    assert!(!is_generated_by_content(&late));
    let mut edge = vec![b' '; 2038];
    edge.extend_from_slice(b"@generated");
    assert!(is_generated_by_content(&edge));
}

#[test]
fn read_small_file_in_full() {
    let mut content = String::new();
    for i in 1..=103 {
        content.push_str(&format!("// markdown outline line {i}\n"));
    }
    content.push_str("// last line without newline");
    assert!(content.len() / 4 <= 1500);
    let mut cache = OutlineCache::new();
    let out = read_file(
        "src/read/outline/markdown.rs",
        file(content.as_bytes()),
        None,
        false,
        false,
        &mut cache,
        never,
    )
    .unwrap();
    let tokens = content.len() / 4;
    let shown = if tokens >= 1000 {
        format!("~{}.{}k", tokens / 1000, (tokens % 1000) / 100)
    } else {
        format!("~{tokens}")
    };
    assert_eq!(
        out,
        format!("# src/read/outline/markdown.rs (104 lines, {shown} tokens) [full]\n\n{content}")
    );
}

#[test]
fn read_large_file_by_outline_and_cache() {
    let content = "x".repeat(8_000);
    let mut cache = OutlineCache::new();
    let mut calls = 0;
    let first = read_file("big.rs", file(content.as_bytes()), None, false, false, &mut cache, |capped| {
        calls += 1;
        assert!(!capped);
        "[1-9] fn a".to_string()
    })
    .unwrap();
    assert_eq!(first, "# big.rs (1 lines, ~2.0k tokens) [outline]\n\n[1-9] fn a");
    // Same mtime: the cache answers and the outline is not computed again.
    let second =
        read_file("big.rs", file(content.as_bytes()), None, false, false, &mut cache, never).unwrap();
    assert_eq!(second, first);
    assert_eq!(calls, 1);
    // Another mtime: computed again.
    let newer = ReadInput::File { bytes: content.as_bytes().to_vec(), mtime: 8 };
    let third = read_file("big.rs", newer, None, false, false, &mut cache, |_| "[1-2] fn b".to_string())
        .unwrap();
    assert_eq!(third, "# big.rs (1 lines, ~2.0k tokens) [outline]\n\n[1-2] fn b");
    let full = read_file("big.rs", file(content.as_bytes()), None, true, false, &mut cache, never).unwrap();
    assert!(full.starts_with("# big.rs (1 lines, ~2.0k tokens) [full]\n\nxxx"));
    let keys = read_file("big.json", file(content.as_bytes()), None, false, false, &mut cache, |_| {
        "a.b".to_string()
    })
    .unwrap();
    assert_eq!(keys, "# big.json (1 lines, ~2.0k tokens) [keys]\n\na.b");
    let huge = "y".repeat(500_001);
    let capped = read_file("huge.rs", file(huge.as_bytes()), None, false, false, &mut cache, |capped| {
        assert!(capped);
        "o".to_string()
    })
    .unwrap();
    assert_eq!(capped, "# huge.rs (1 lines, ~125.0k tokens) [outline]\n\no");
}

#[test]
fn read_special_files() {
    let mut cache = OutlineCache::new();
    assert_eq!(
        read_file("e.txt", file(b""), None, false, false, &mut cache, never).unwrap(),
        "# e.txt (0 lines, ~0 tokens) [empty]"
    );
    assert_eq!(
        read_file("logo.png", file(b"\x89PNG\0\0"), None, false, false, &mut cache, never).unwrap(),
        "# logo.png (binary, 6B, image/png) [skipped]"
    );
    assert_eq!(
        read_file("api.rs", file(b"// @generated\nfn a() {}\n"), None, true, false, &mut cache, never)
            .unwrap(),
        "# api.rs (3 lines, ~6 tokens) [generated]"
    );
    let named = ReadInput::File { bytes: b"{}\n".to_vec(), mtime: 1 };
    assert_eq!(
        read_file("web/package-lock.json", named, None, false, false, &mut cache, never).unwrap(),
        "# web/package-lock.json (2 lines, ~0 tokens) [generated]"
    );
    assert_eq!(
        read_file("f.txt", file(b"a\nb\nc\n"), Some("2-2"), false, false, &mut cache, never).unwrap(),
        "# f.txt (1 lines, ~0 tokens) [section]\n\n2  b\n"
    );
    // A section is read from binary files too.
    assert!(read_file("b.bin", file(b"a\0\nb\n"), Some("1-1"), false, false, &mut cache, never).is_ok());
}

#[test]
fn read_errors_and_directories() {
    let mut cache = OutlineCache::new();
    let siblings = vec!["markdown.rs".to_string(), "mod.rs".to_string()];
    match read_file(
        "src/read/outline/markdwn.rs",
        ReadInput::Missing { siblings },
        None,
        false,
        false,
        &mut cache,
        never,
    ) {
        Err(TilthError::NotFound { path, suggestion }) => {
            assert_eq!(path, "src/read/outline/markdwn.rs");
            assert_eq!(suggestion, Some("markdown.rs".to_string()));
        }
        other => panic!("unexpected: {other:?}"),
    }
    match read_file("x", ReadInput::Missing { siblings: Vec::new() }, None, false, false, &mut cache, never) {
        Err(e @ TilthError::NotFound { .. }) => assert_eq!(e.message(), "not found: x"),
        other => panic!("unexpected: {other:?}"),
    }
    match read_file("secret", ReadInput::Denied, None, false, false, &mut cache, never) {
        Err(e @ TilthError::PermissionDenied { .. }) => {
            assert_eq!(e.message(), "permission denied: secret")
        }
        other => panic!("unexpected: {other:?}"),
    }
    match read_file(
        "dev",
        ReadInput::Failed { message: "broken pipe".to_string() },
        Some("1-2"),
        true,
        false,
        &mut cache,
        never,
    ) {
        Err(e @ TilthError::IoError { .. }) => assert_eq!(e.message(), "dev: broken pipe"),
        other => panic!("unexpected: {other:?}"),
    }
    let entries = vec![DirEntry { name: "a".to_string(), kind: EntryKind::Other, byte_len: Some(8) }];
    assert_eq!(
        read_file("d", ReadInput::Directory { entries }, None, false, false, &mut cache, never).unwrap(),
        "# d (1 items)\n\n  a  (2 tokens)"
    );
}

#[test]
fn error_messages() {
    let e = TilthError::NotFound { path: "a".to_string(), suggestion: Some("b".to_string()) };
    assert_eq!(e.message(), "not found: a — did you mean: b?");
    let e = TilthError::InvalidQuery { query: "q".to_string(), reason: "r".to_string() };
    assert_eq!(e.message(), "invalid query \"q\": r");
    let e = TilthError::HashMismatch { view: "1:abc|x".to_string() };
    assert_eq!(e.message(), "hash mismatch — file changed since last read:\n\n1:abc|x");
    assert_eq!(TilthError::ParseError { message: "eof".to_string() }.message(), "parse error: eof");
    assert_eq!(TilthError::UnknownTool { name: "t".to_string() }.message(), "unknown tool: t");
    assert_eq!(
        TilthError::UnknownMethod { name: "m".to_string() }.message(),
        "method not found: m"
    );
}

#[test]
fn outline_cache_computes_once_per_path_and_mtime() {
    let mut cache = OutlineCache::new();
    let mut calls = 0;
    let a = cache.get_or_compute("a.rs", 1, || {
        calls += 1;
        "first".to_string()
    });
    assert_eq!(a, "first");
    let b = cache.get_or_compute("a.rs", 1, || panic!("must not be called"));
    assert_eq!(b, "first");
    assert_eq!(calls, 1);
    assert_eq!(cache.get_or_compute("a.rs", 2, || "second".to_string()), "second");
    // The entry was overwritten: the old mtime misses now.
    assert_eq!(cache.get_or_compute("a.rs", 1, || "third".to_string()), "third");
    assert_eq!(cache.get_or_compute("b.rs", 1, || "other".to_string()), "other");
    assert_eq!(cache.lookup("a.rs", 1), Some("third".to_string()));
    assert_eq!(cache.lookup("a.rs", 2), None);
    assert_eq!(cache.lookup("c.rs", 1), None);
    cache.store("c.rs", 9, "stored".to_string());
    assert_eq!(cache.lookup("c.rs", 9), Some("stored".to_string()));
}

#[test]
fn session_counts_and_resets() {
    let mut s = Session::new();
    assert_eq!(s.summary(), "Session: 0 reads, 0 searches, 0 expansions, 0 map calls");
    s.record_read("a.rs");
    s.record_read("a.rs");
    s.record_search("foo");
    s.record_map();
    s.record_expand("src/a.rs", 3);
    assert!(s.is_expanded("src/a.rs", 3));
    assert!(s.is_expanded("src//a.rs", 3));
    assert!(!s.is_expanded("src/a.rs", 4));
    assert!(!s.is_expanded("src/b.rs", 3));
    assert_eq!(s.summary(), "Session: 2 reads, 1 searches, 1 expansions, 1 map calls");
    s.reset();
    assert!(!s.is_expanded("src/a.rs", 3));
    assert_eq!(s.summary(), "Session: 0 reads, 0 searches, 0 expansions, 0 map calls");
}

#[test]
fn read_in_edit_mode_shows_anchors() {
    let mut cache = OutlineCache::new();
    let out = read_file("a.txt", file(b"x = 0\ny = 1"), None, false, true, &mut cache, never).unwrap();
    let h1 = format!("{:03x}", tilth::edit::line_hash("x = 0"));
    let h2 = format!("{:03x}", tilth::edit::line_hash("y = 1"));
    assert_eq!(out, format!("# a.txt (2 lines, ~2 tokens) [full]\n\n1:{h1}|x = 0\n2:{h2}|y = 1"));
    let section = read_section("a.txt", b"l1\nl2\nl3\n", "2-3", true).unwrap();
    let a = format!("{:03x}", tilth::edit::line_hash("l2"));
    let b = format!("{:03x}", tilth::edit::line_hash("l3"));
    assert_eq!(section, format!("# a.txt (2 lines, ~1 tokens) [section]\n\n2:{a}|l2\n3:{b}|l3"));
}

#[test]
fn generated_names() {
    for name in ["package-lock.json", "Cargo.lock", "go.sum", "app.min.js", "api.pb.go", "x_pb2.py"] {
        assert!(is_generated_by_name(name), "{name}");
    }
    for name in ["package.json", "main.js", "lock", "min.js.map", ""] {
        assert!(!is_generated_by_name(name), "{name}");
    }
}

#[test]
fn map_rendering() {
    let entries = vec![
        MapEntry {
            depth: 0,
            name: "src".to_string(),
            is_dir: true,
            symbols: Vec::new(),
            byte_len: Some(4096),
        },
        MapEntry {
            depth: 1,
            name: "main.rs".to_string(),
            is_dir: false,
            symbols: vec!["main".to_string(), "run".to_string()],
            byte_len: Some(900),
        },
        MapEntry {
            depth: 0,
            name: "README.md".to_string(),
            is_dir: false,
            symbols: Vec::new(),
            byte_len: Some(483),
        },
        MapEntry {
            depth: 0,
            name: "locked".to_string(),
            is_dir: false,
            symbols: Vec::new(),
            byte_len: None,
        },
    ];
    assert_eq!(
        render_map("./proj", &entries),
        "# Map: ./proj\nsrc/\n  main.rs: main, run\nREADME.md: ~120 tokens\nlocked"
    );
    assert_eq!(
        ordered_names(vec!["b".to_string(), "a".to_string(), "B".to_string()]),
        vec!["B".to_string(), "a".to_string(), "b".to_string()]
    );
    assert_eq!(render_map(".", &Vec::new()), "# Map: .");
}

#[test]
fn session_tool_answers() {
    let mut session = Session::new();
    session.record_read("a.rs");
    session.record_search("q");
    assert_eq!(session.respond(false), "Session: 1 reads, 1 searches, 0 expansions, 0 map calls");
    assert_eq!(session.respond(true), "Session reset.");
    assert_eq!(session.respond(false), "Session: 0 reads, 0 searches, 0 expansions, 0 map calls");
}
