use std::collections::HashSet;

use tilth::search::context::{extract_line_range, outline_context_for_match, takes_outline_context};
use tilth::search::expand::{expand_match, filter_code_lines, flush_gap_marker};
use tilth::search::related::related_files;
use tilth::search::glob::{
    format_glob_result, glob_result, token_preview, GlobFile, GlobResult, MAX_GLOB_FILES,
};
use tilth::search::rank::Workspace;
use tilth::search::render::{
    format_matches, format_search_result, Callee, CalleeNode, Expansion, MatchSource,
};
use tilth::search::truncate::select_diverse_lines;
use tilth::search::{
    assemble, estimate_lines, format_content_result, format_symbol_result, is_skip_dir,
    parse_pattern, search_content, search_content_expanded, search_content_raw, search_glob,
    search_multi_symbol_expanded, search_symbol, search_symbol_expanded, search_symbol_raw, Found,
};
use tilth::session::Session;
use tilth::types::{Lang, Match, OutlineEntry, OutlineKind, SearchResult};

fn hit(path: &str, line: u32, text: &str) -> Match {
    Match {
        path: path.to_string(),
        line,
        text: text.to_string(),
        is_definition: false,
        def_range: None,
        def_name: None,
        def_weight: 0,
        impl_target: None,
        exact: false,
        file_lines: 10,
        mtime: 0,
    }
}

fn def(path: &str, line: u32, end: u32, text: &str) -> Match {
    let mut m = hit(path, line, text);
    m.is_definition = true;
    m.def_weight = 100;
    m.def_range = Some((line, end));
    m
}

fn world() -> Workspace {
    Workspace { now: 10_000_000_000, manifest_dirs: Vec::new() }
}

fn expansion(content: &str) -> Expansion {
    Expansion {
        content: content.to_string(),
        callees: Vec::new(),
        outline: Vec::new(),
        sibling_refs: Vec::new(),
        related: Vec::new(),
    }
}

fn source(path: &str, line: u32, e: Option<Expansion>) -> MatchSource {
    MatchSource { path: path.to_string(), line, byte_len: Some(100), outline: None, expansion: e }
}

fn big_file() -> String {
    let mut s = String::new();
    for i in 1..=200 {
        s.push_str(&format!("line {i:03} of the file\n"));
    }
    s
}

#[test]
fn parse_pattern_slashes() {
    assert_eq!(parse_pattern("/foo.*/"), ("foo.*".to_string(), true));
    assert_eq!(parse_pattern("/a/"), ("a".to_string(), true));
    assert_eq!(parse_pattern("//"), ("//".to_string(), false));
    assert_eq!(parse_pattern("/"), ("/".to_string(), false));
    assert_eq!(parse_pattern("foo"), ("foo".to_string(), false));
    assert_eq!(parse_pattern("/foo"), ("/foo".to_string(), false));
    assert_eq!(parse_pattern(""), (String::new(), false));
}

#[test]
fn line_estimate_from_size() {
    assert_eq!(estimate_lines(0), 1);
    assert_eq!(estimate_lines(40), 1);
    assert_eq!(estimate_lines(80), 2);
    assert_eq!(estimate_lines(4_000), 100);
    assert_eq!(estimate_lines(u64::MAX), u32::MAX);
}

#[test]
fn skip_dirs() {
    for name in [
        ".git", "node_modules", "target", "dist", "build", "__pycache__", ".pycache", "vendor",
        ".next", ".nuxt", "coverage", ".cache", ".tox", ".venv", ".eggs", ".mypy_cache",
        ".ruff_cache", ".pytest_cache", ".turbo", ".parcel-cache", ".svelte-kit", "out", ".output",
        ".vercel", ".netlify", ".gradle", ".idea",
    ] {
        assert!(is_skip_dir(name), "{name}");
    }
    assert!(!is_skip_dir("src"));
    assert!(!is_skip_dir("docs"));
    assert!(!is_skip_dir(".github"));
}

#[test]
fn expand_small_file_skips_leading_imports() {
    let content = "use std::fmt;\n\nfn main() {\n    run();\n}\n";
    let m = def("a.rs", 3, 5, "fn main() {");
    assert_eq!(
        expand_match(&m, content),
        "\n```a.rs:3-5\n   3 │ fn main() {\n   4 │     run();\n   5 │ }\n```"
    );
    // A usage keeps the imports.
    let u = hit("a.rs", 4, "run();");
    assert_eq!(
        expand_match(&u, content),
        "\n```a.rs:1-5\n   1 │ use std::fmt;\n   2 │ \n   3 │ fn main() {\n   4 │     run();\n   5 │ }\n```"
    );
}

#[test]
fn expand_collapses_blank_runs() {
    let m = hit("a.rs", 1, "a");
    assert_eq!(
        expand_match(&m, "a\n\n \n\t\nb\n"),
        "\n```a.rs:1-5\n   1 │ a\n   2 │ \n   5 │ b\n```"
    );
    assert_eq!(expand_match(&m, ""), "\n```a.rs:1-0\n```");
}

#[test]
fn expand_large_file_uses_range_or_window() {
    let content = big_file();
    assert!(content.len() / 4 >= 800);
    let d = def("big.rs", 50, 52, "line 050 of the file");
    assert_eq!(
        expand_match(&d, &content),
        "\n```big.rs:50-52\n  50 │ line 050 of the file\n  51 │ line 051 of the file\n  52 │ line 052 of the file\n```"
    );
    let u = hit("big.rs", 100, "line 100 of the file");
    let out = expand_match(&u, &content);
    assert!(out.starts_with("\n```big.rs:90-110\n  90 │ line 090 of the file\n"));
    assert!(out.ends_with("\n 110 │ line 110 of the file\n```"));
    assert_eq!(out.lines().count(), 1 + 1 + 21 + 1);
    let top = hit("big.rs", 5, "x");
    assert!(expand_match(&top, &content).starts_with("\n```big.rs:1-15\n   1 │ "));
    let tail = def("big.rs", 195, 400, "x");
    assert!(expand_match(&tail, &content).starts_with("\n```big.rs:195-200\n 195 │ "));
}

#[test]
fn expand_file_of_eight_hundred_tokens_whole() {
    let mut content = String::new();
    for i in 1..=160 {
        content.push_str(&format!("row {i:03} of the text\n"));
    }
    assert_eq!(content.len(), 3200);
    let u = hit("edge.rs", 100, "row 100 of the text");
    let out = expand_match(&u, &content);
    assert!(out.starts_with("\n```edge.rs:1-160\n   1 │ row 001 of the text\n"));
    content.push_str("more\n");
    assert_eq!(content.len() / 4, 801);
    assert!(expand_match(&u, &content).starts_with("\n```edge.rs:90-110\n"));
}

#[test]
fn filter_marks_long_gaps_only() {
    let m = hit("a.rs", 1, "");
    let code = expand_match(&m, "l1\nl2\nl3\nl4\nl5\nl6\nl7\nl8\n");
    let skip: HashSet<u32> = [2, 3, 4, 5, 7].into_iter().collect();
    assert_eq!(
        filter_code_lines(&code, &skip),
        "\n```a.rs:1-8\n   1 │ l1\n       ... (4 lines omitted)\n   6 │ l6\n   8 │ l8\n```"
    );
    let few: HashSet<u32> = [2, 3, 4].into_iter().collect();
    assert_eq!(
        filter_code_lines(&code, &few),
        "\n```a.rs:1-8\n   1 │ l1\n   5 │ l5\n   6 │ l6\n   7 │ l7\n   8 │ l8\n```"
    );
    let tail: HashSet<u32> = [5, 6, 7, 8].into_iter().collect();
    assert_eq!(
        filter_code_lines(&code, &tail),
        "\n```a.rs:1-8\n   1 │ l1\n   2 │ l2\n   3 │ l3\n   4 │ l4\n       ... (4 lines omitted)\n```"
    );
    assert_eq!(filter_code_lines(&code, &HashSet::new()), code);
}

#[test]
fn gap_marker_threshold() {
    let mut kept: Vec<Vec<char>> = Vec::new();
    let mut n: u64 = 3;
    flush_gap_marker(&mut kept, &mut n);
    assert!(kept.is_empty());
    assert_eq!(n, 0);
    n = 12;
    flush_gap_marker(&mut kept, &mut n);
    let line: String = kept[0].iter().collect();
    assert_eq!(line, "       ... (12 lines omitted)");
    assert_eq!(n, 0);
}

#[test]
fn line_ranges_of_outline_entries() {
    assert_eq!(extract_line_range("[20-115] fn foo"), Some((20, 115)));
    assert_eq!(extract_line_range("[16]"), Some((16, 16)));
    assert_eq!(extract_line_range("  [1-] imports"), Some((1, 1)));
    assert_eq!(extract_line_range("[ 3 - 7 ] x"), Some((3, 7)));
    assert_eq!(extract_line_range("[+3-7]"), Some((3, 7)));
    assert_eq!(extract_line_range("no range"), None);
    assert_eq!(extract_line_range("[a-b]"), None);
    assert_eq!(extract_line_range("[5"), None);
    assert_eq!(extract_line_range("[]"), None);
    assert_eq!(extract_line_range("[-5]"), None);
    assert_eq!(extract_line_range("[4294967295]"), Some((u32::MAX, u32::MAX)));
    assert_eq!(extract_line_range("[4294967296]"), None);
    assert_eq!(extract_line_range(""), None);
}

#[test]
fn outline_context_marks_the_covering_entry() {
    let outline = "[1-3] imports\n[5-20] fn a\n[22-40] fn b\n[42-60] fn c\n[62-80] fn d\n[82-99] fn e";
    assert_eq!(
        outline_context_for_match("x.rs", 45, Some(1000), outline),
        Some(
            "\n  [5-20] fn a\n  [22-40] fn b\n→ [42-60] fn c\n  [62-80] fn d\n  [82-99] fn e"
                .to_string()
        )
    );
    assert_eq!(
        outline_context_for_match("x.rs", 2, Some(1000), outline),
        Some("\n→ [1-3] imports\n  [5-20] fn a\n  [22-40] fn b".to_string())
    );
    assert_eq!(
        outline_context_for_match("x.rs", 99, Some(1000), outline),
        Some("\n  [42-60] fn c\n  [62-80] fn d\n→ [82-99] fn e".to_string())
    );
    assert_eq!(outline_context_for_match("x.rs", 21, Some(1000), outline), None);
    assert_eq!(outline_context_for_match("x.md", 45, Some(1000), outline), None);
    assert_eq!(outline_context_for_match("x.rs", 45, None, outline), None);
    assert_eq!(outline_context_for_match("x.rs", 45, Some(500_001), outline), None);
    assert_eq!(outline_context_for_match("x.rs", 45, Some(500_000), ""), None);
    assert!(takes_outline_context("x.rs", Some(500_000)));
    assert!(!takes_outline_context("x.rs", Some(500_001)));
    assert!(!takes_outline_context("x.json", Some(5)));
}

#[test]
fn glob_result_rendering() {
    let r = GlobResult {
        pattern: "*.rs".to_string(),
        files: vec![
            GlobFile { path: "src/a.rs".to_string(), preview: Some("~120 tokens".to_string()) },
            GlobFile { path: "src/b.rs".to_string(), preview: None },
        ],
        total_found: 5,
        available_extensions: vec!["rs".to_string()],
    };
    let want = "# Glob: \"*.rs\" in ./src — 2 files\n  src/a.rs  (~120 tokens)\n  src/b.rs\n\n... and 3 more files. Narrow with scope.";
    assert_eq!(format_glob_result(&r, "./src"), want);
    assert_eq!(search_glob(&r, "./src"), want);
    let none = GlobResult {
        pattern: "*.zig".to_string(),
        files: Vec::new(),
        total_found: 0,
        available_extensions: vec!["rs".to_string(), "md".to_string()],
    };
    assert_eq!(
        format_glob_result(&none, "."),
        "# Glob: \"*.zig\" in . — 0 files\n\nNo matches. Available extensions in scope: rs, md"
    );
}

#[test]
fn result_without_expansion() {
    let result = SearchResult {
        query: "foo".to_string(),
        scope: "src".to_string(),
        matches: vec![def("src/a.rs", 10, 20, "fn foo() {"), hit("src/b.rs", 5, "foo();")],
        total_found: 5,
        definitions: 1,
        usages: 4,
    };
    let want = "# Search: \"foo\" in src — 2 matches (1 definitions, 4 usages)\n\n## src/a.rs:10-20 [definition]\n→ [10]   fn foo() {\n\n## src/b.rs:5 [usage]\n→ [5]   foo();\n\n... and 3 more matches. Narrow with scope.";
    assert_eq!(format_symbol_result(&result, &Vec::new(), &Vec::new()), want);
    assert_eq!(format_content_result(&result, &Vec::new(), &Vec::new()), want);
}

#[test]
fn result_uses_outline_context_for_large_files() {
    let mut m = def("src/a.rs", 42, 60, "fn c() {");
    m.file_lines = 300;
    let mut imp = def("src/a.rs", 5, 20, "impl T for A {");
    imp.impl_target = Some("A".to_string());
    imp.file_lines = 300;
    let result = SearchResult {
        query: "c".to_string(),
        scope: ".".to_string(),
        matches: vec![m, imp],
        total_found: 2,
        definitions: 0,
        usages: 2,
    };
    let mut src = source("src/a.rs", 42, None);
    src.outline = Some("[5-20] impl T for A\n[42-60] fn c".to_string());
    let sources = vec![src];
    assert_eq!(
        format_symbol_result(&result, &sources, &Vec::new()),
        "# Search: \"c\" in . — 2 matches (0 definitions, 2 usages)\n\n## src/a.rs:42-60 [definition]\n  [5-20] impl T for A\n→ [42-60] fn c\n\n## src/a.rs:5-20 [impl]\n→ [5]   impl T for A {"
    );
}

#[test]
fn expansion_is_deduplicated_by_session_and_file() {
    let content = "fn foo() {\n    bar();\n}\n";
    let matches = vec![
        def("a.rs", 1, 3, "fn foo() {"),
        hit("a.rs", 2, "bar();"),
        hit("b.rs", 1, "foo();"),
    ];
    let sources = vec![
        source("a.rs", 1, Some(expansion(content))),
        source("a.rs", 2, Some(expansion(content))),
        source("b.rs", 1, Some(expansion("foo();\n"))),
    ];
    let mut session = Session::new();
    let mut remaining = 5usize;
    let mut files: Vec<String> = Vec::new();
    let mut out = String::new();
    format_matches(&matches, &sources, &mut session, true, &mut remaining, &mut files, &mut out);
    let block_a = "\n\n```a.rs:1-3\n   1 │ fn foo() {\n   2 │     bar();\n   3 │ }\n```";
    let block_b = "\n\n```b.rs:1-1\n   1 │ foo();\n```";
    assert_eq!(
        out,
        format!(
            "\n\n## a.rs:1-3 [definition]\n→ [1]   fn foo() {{{block_a}\n\n## a.rs:2 [usage]\n→ [2]   bar();\n\n## b.rs:1 [usage]\n→ [1]   foo();{block_b}"
        )
    );
    assert_eq!(remaining, 3);
    assert!(session.is_expanded("a.rs", 1));
    assert!(!session.is_expanded("a.rs", 2));
    assert!(!session.is_expanded("b.rs", 1));

    // The same search again: the definition is only noted.
    let mut remaining = 5usize;
    let mut files: Vec<String> = Vec::new();
    let mut again = String::new();
    format_matches(&matches, &sources, &mut session, true, &mut remaining, &mut files, &mut again);
    assert!(again.starts_with(
        "\n\n## a.rs:1-3 [definition]\n→ [1]   fn foo() {\n\n[shown earlier] a.rs:1-3 fn foo() {\n\n## a.rs:2 [usage]\n→ [2]   bar();\n\n```a.rs:1-3"
    ));
    assert_eq!(remaining, 3);
}

#[test]
fn expansion_budget_is_respected() {
    let matches = vec![hit("a.rs", 1, "x"), hit("a.rs", 2, "y"), hit("a.rs", 3, "z")];
    let sources = vec![
        source("a.rs", 1, Some(expansion("x\ny\nz\n"))),
        source("a.rs", 2, Some(expansion("x\ny\nz\n"))),
        source("a.rs", 3, None),
    ];
    let mut session = Session::new();
    let mut remaining = 1usize;
    let mut files: Vec<String> = Vec::new();
    let mut out = String::new();
    // One file only: matches are expanded one after the other while the budget lasts.
    format_matches(&matches, &sources, &mut session, false, &mut remaining, &mut files, &mut out);
    assert_eq!(out.matches("```a.rs:1-3").count(), 1);
    assert_eq!(remaining, 0);
    let mut remaining = 3usize;
    let mut files: Vec<String> = Vec::new();
    let mut out = String::new();
    format_matches(&matches, &sources, &mut session, false, &mut remaining, &mut files, &mut out);
    assert_eq!(out.matches("```a.rs:1-3").count(), 2);
    // The third match has no readable file and uses up nothing.
    assert_eq!(remaining, 1);
}

#[test]
fn expansion_strips_noise_and_lists_footers() {
    let content = "impl A {\n    fn run(&self) {\n        // plain\n        debug!(\"x\");\n        self.step();\n        helper();\n    }\n    fn step(&self) {}\n}\n";
    let mut m = def("src/a.rs", 2, 7, "fn run(&self) {");
    m.def_name = Some("run".to_string());
    let mut e = expansion(content);
    e.callees = vec![
        CalleeNode {
            callee: Callee {
                name: "helper".to_string(),
                file: "src/h.rs".to_string(),
                start_line: 3,
                end_line: 9,
                signature: Some("fn helper()".to_string()),
            },
            children: vec![Callee {
                name: "inner".to_string(),
                file: "src/i.rs".to_string(),
                start_line: 1,
                end_line: 2,
                signature: None,
            }],
        },
        CalleeNode {
            callee: Callee {
                name: "run".to_string(),
                file: "src/a.rs".to_string(),
                start_line: 2,
                end_line: 7,
                signature: None,
            },
            children: Vec::new(),
        },
    ];
    let step = OutlineEntry {
        name: "step".to_string(),
        kind: OutlineKind::Method,
        signature: Some("fn step(&self)".to_string()),
        start_line: 8,
        end_line: 8,
        children: Vec::new(),
    };
    let run = OutlineEntry {
        name: "run".to_string(),
        kind: OutlineKind::Method,
        signature: None,
        start_line: 2,
        end_line: 7,
        children: Vec::new(),
    };
    e.outline = vec![OutlineEntry {
        name: "impl A".to_string(),
        kind: OutlineKind::Impl,
        signature: None,
        start_line: 1,
        end_line: 9,
        children: vec![run, step],
    }];
    e.sibling_refs = vec!["run".to_string(), "step".to_string()];
    e.related = vec!["never shown".to_string()];
    let sources = vec![source("src/a.rs", 2, Some(e))];
    let mut session = Session::new();
    let mut remaining = 1usize;
    let mut files: Vec<String> = Vec::new();
    let mut out = String::new();
    format_matches(&vec![m], &sources, &mut session, true, &mut remaining, &mut files, &mut out);
    assert_eq!(
        out,
        "\n\n## src/a.rs:2-7 [definition]\n→ [2]   fn run(&self) {\n\n```src/a.rs:1-9\n   1 │ impl A {\n   2 │     fn run(&self) {\n   5 │         self.step();\n   6 │         helper();\n   7 │     }\n   8 │     fn step(&self) {}\n   9 │ }\n```\n\n── calls ──\n  helper  src/h.rs:3-9  fn helper()\n    → inner  src/i.rs:1-2\n\n── siblings ──\n  step  src/a.rs:8-8  fn step(&self)"
    );
}

#[test]
fn usage_expansion_lists_related_files() {
    let m = hit("src/a.py", 1, "import b");
    let mut e = expansion("import b\nb.run()\n");
    e.related = vec!["src/b.py".to_string(), "src/c.py".to_string()];
    let sources = vec![source("src/a.py", 1, Some(e))];
    let mut session = Session::new();
    let mut remaining = 1usize;
    let mut files: Vec<String> = Vec::new();
    let mut out = String::new();
    format_matches(&vec![m], &sources, &mut session, true, &mut remaining, &mut files, &mut out);
    assert!(out.ends_with("\n```\n\n> Related: src/b.py, src/c.py"));
}

#[test]
fn callees_over_eight_put_other_files_first() {
    let mut m = def("src/a.rs", 1, 3, "fn f() {");
    m.def_name = Some("f".to_string());
    let mut e = expansion("fn f() {\n    g();\n}\n");
    for i in 0..10 {
        let file = if i % 2 == 0 { "src/a.rs" } else { "src/other.rs" };
        e.callees.push(CalleeNode {
            callee: Callee {
                name: format!("c{i}"),
                file: file.to_string(),
                start_line: i,
                end_line: i + 1,
                signature: None,
            },
            children: Vec::new(),
        });
    }
    let sources = vec![source("src/a.rs", 1, Some(e))];
    let mut session = Session::new();
    let mut remaining = 1usize;
    let mut files: Vec<String> = Vec::new();
    let mut out = String::new();
    format_matches(&vec![m], &sources, &mut session, false, &mut remaining, &mut files, &mut out);
    let calls = out.split("── calls ──").nth(1).unwrap();
    let names: Vec<&str> = calls
        .lines()
        .filter(|l| !l.is_empty())
        .map(|l| l.trim().split("  ").next().unwrap())
        .collect();
    assert_eq!(names, vec!["c1", "c3", "c5", "c7", "c9", "c0", "c2", "c4"]);
}

#[test]
fn long_definition_keeps_selected_lines() {
    // A definition of 70 lines: the first two and last two lines, the branch
    // heads and the first line of each indentation stay.
    let mut content = String::from("fn f() {\n    let a = 0;\n");
    for i in 3..=68 {
        if i == 30 {
            content.push_str("    if a > 0 {\n");
        } else if i == 31 {
            content.push_str("        deep();\n");
        } else if i == 50 {
            content.push_str("    return a;\n");
        } else {
            content.push_str(&format!("    step{i}();\n"));
        }
    }
    content.push_str("    done();\n}\n");
    assert_eq!(content.lines().count(), 70);
    let keep = select_diverse_lines(&content, 1, 70, Lang::Rust).unwrap();
    assert_eq!(keep, vec![1, 2, 30, 31, 50, 69, 70]);
    assert_eq!(select_diverse_lines(&content, 1, 60, Lang::Rust), None);
    assert_eq!(select_diverse_lines(&content, 1, 61, Lang::Rust).unwrap(), vec![1, 2, 30, 31, 50, 60, 61]);
    assert_eq!(select_diverse_lines(&content, 1, 71, Lang::Rust), None);
    assert_eq!(select_diverse_lines(&content, 0, 70, Lang::Rust), None);

    let m = def("a.rs", 1, 70, "fn f() {");
    let sources = vec![source("a.rs", 1, Some(expansion(&content)))];
    let mut session = Session::new();
    let mut remaining = 1usize;
    let mut files: Vec<String> = Vec::new();
    let mut out = String::new();
    format_matches(&vec![m], &sources, &mut session, false, &mut remaining, &mut files, &mut out);
    assert!(out.ends_with(
        "\n```a.rs:1-70\n   1 │ fn f() {\n   2 │     let a = 0;\n       ... (27 lines omitted)\n  30 │     if a > 0 {\n  31 │         deep();\n       ... (18 lines omitted)\n  50 │     return a;\n       ... (18 lines omitted)\n  69 │     done();\n  70 │ }\n```"
    ));
}

#[test]
fn many_matches_come_in_facets() {
    let mut imp = def("/repo/src/imp.rs", 5, 9, "impl T for A {");
    imp.impl_target = Some("A".to_string());
    let mut test = hit("/repo/tests/t.rs", 3, "foo();");
    test.text = "#[test] fn t() { foo(); }".to_string();
    let result = SearchResult {
        query: "foo".to_string(),
        scope: "/".to_string(),
        matches: vec![
            def("/repo/src/def.rs", 10, 12, "fn foo() {"),
            imp,
            hit("/repo/src/u1.rs", 1, "foo();"),
            test,
            hit("/other/u2.rs", 2, "foo();"),
            hit("/repo/src/u3.rs", 4, "foo();"),
        ],
        total_found: 6,
        definitions: 2,
        usages: 4,
    };
    let out = format_symbol_result(&result, &Vec::new(), &vec!["/repo".to_string()]);
    assert_eq!(
        out,
        "# Search: \"foo\" in / — 6 matches (2 definitions, 4 usages)\n\n### Definitions (1)\n\n## /repo/src/def.rs:10-12 [definition]\n→ [10]   fn foo() {\n\n### Implementations (1)\n\n## /repo/src/imp.rs:5-9 [impl]\n→ [5]   impl T for A {\n\n### Tests (1)\n\n## /repo/tests/t.rs:3 [usage]\n→ [3]   #[test] fn t() { foo(); }\n\n### Usages — same package (2)\n\n## /repo/src/u1.rs:1 [usage]\n→ [1]   foo();\n\n## /repo/src/u3.rs:4 [usage]\n→ [4]   foo();\n\n### Usages — other (1)\n\n## /other/u2.rs:2 [usage]\n→ [2]   foo();"
    );
}

#[test]
fn assemble_drops_shadowed_usages_and_counts() {
    let found = vec![
        hit("src/a.rs", 10, "fn foo() {"),
        def("src/a.rs", 10, 20, "fn foo() {"),
        hit("src/b.rs", 10, "foo();"),
        hit("src//a.rs", 10, "fn foo() {"),
        hit("src/a.rs", 11, "foo();"),
    ];
    let r = assemble("foo", "src", found, None, &world(), 40);
    assert_eq!(r.total_found, 3);
    assert_eq!(r.definitions, 1);
    assert_eq!(r.usages, 2);
    assert_eq!(r.query, "foo");
    assert_eq!(r.scope, "src");
    let order: Vec<(&str, u32, bool)> =
        r.matches.iter().map(|m| (m.path.as_str(), m.line, m.is_definition)).collect();
    assert_eq!(
        order,
        vec![("src/a.rs", 10, true), ("src/a.rs", 11, false), ("src/b.rs", 10, false)]
    );
}

#[test]
fn assemble_caps_what_is_shown() {
    let found: Vec<Match> = (0..100).map(|i| hit(&format!("src/f{i:03}.rs"), 1, "x")).collect();
    let r = assemble("q", "src", found, None, &world(), 1000);
    assert_eq!(r.matches.len(), 40);
    assert_eq!(r.total_found, 100);
    assert_eq!(r.definitions + r.usages, r.total_found);
    assert!(r.matches.len() <= r.total_found);
    assert_eq!(r.matches[0].path, "src/f000.rs");
    let found: Vec<Match> = (0..100).map(|i| hit(&format!("src/f{i:03}.rs"), 1, "x")).collect();
    let r = assemble("q", "src", found, None, &world(), 7);
    assert_eq!(r.matches.len(), 7);
    assert_eq!(r.total_found, 100);
    let r = search_symbol_raw("q", "src", Vec::new(), &world());
    assert_eq!((r.matches.len(), r.total_found, r.definitions, r.usages), (0, 0, 0, 0));
    let r = search_content_raw("/fo+/", "src", vec![hit("src/a.rs", 1, "foo")], &world());
    assert_eq!(r.query, "fo+");
    assert_eq!(r.total_found, 1);
}

#[test]
fn search_symbol_ranks_and_formats() {
    let found = vec![hit("./src/main.rs", 5, "search();"), {
        let mut d = def("./src/search/mod.rs", 129, 137, "pub fn search_symbol(");
        d.def_name = Some("search_symbol".to_string());
        d
    }];
    let text = search_symbol("search", "./src", found, &Vec::new(), &world());
    assert_eq!(
        text,
        "# Search: \"search\" in ./src — 2 matches (1 definitions, 1 usages)\n\n## ./src/search/mod.rs:129-137 [definition]\n→ [129]   pub fn search_symbol(\n\n## ./src/main.rs:5 [usage]\n→ [5]   search();"
    );
    let text = search_content("/sea/", "./src", vec![hit("./src/main.rs", 5, "search();")], &Vec::new(), &world());
    assert_eq!(
        text,
        "# Search: \"sea\" in ./src — 1 matches (0 definitions, 1 usages)\n\n## ./src/main.rs:5 [usage]\n→ [5]   search();"
    );
}

#[test]
fn expanded_searches_record_in_the_session() {
    let content = "fn foo() {}\n";
    let sources = vec![source("a.rs", 1, Some(expansion(content)))];
    let mut session = Session::new();
    let first = search_symbol_expanded(
        "foo",
        ".",
        vec![def("a.rs", 1, 1, "fn foo() {}")],
        &sources,
        &mut session,
        1,
        None,
        &world(),
    );
    assert!(first.ends_with("\n\n```a.rs:1-1\n   1 │ fn foo() {}\n```"));
    let second = search_symbol_expanded(
        "foo",
        ".",
        vec![def("a.rs", 1, 1, "fn foo() {}")],
        &sources,
        &mut session,
        1,
        None,
        &world(),
    );
    assert!(second.ends_with("\n\n[shown earlier] a.rs:1-1 fn foo() {}"));
    let third = search_content_expanded(
        "foo",
        ".",
        vec![hit("a.rs", 1, "fn foo() {}")],
        &sources,
        &mut session,
        0,
        None,
        &world(),
    );
    assert_eq!(third, "# Search: \"foo\" in . — 1 matches (0 definitions, 1 usages)\n\n## a.rs:1 [usage]\n→ [1]   fn foo() {}");
}

#[test]
fn multi_symbol_search_shares_expansions() {
    let content = "fn foo() {}\nfn bar() {}\n";
    let sources = vec![
        source("a.rs", 1, Some(expansion(content))),
        source("a.rs", 2, Some(expansion(content))),
        source("b.rs", 7, Some(expansion("bar();\n"))),
    ];
    let searches = vec![
        Found { query: "foo".to_string(), matches: vec![def("a.rs", 1, 1, "fn foo() {}")] },
        Found {
            query: "bar".to_string(),
            matches: vec![def("a.rs", 2, 2, "fn bar() {}"), hit("b.rs", 7, "bar();")],
        },
    ];
    let mut session = Session::new();
    let text = search_multi_symbol_expanded(&searches, ".", &sources, &mut session, 1, None, &world());
    let block = "\n\n```a.rs:1-2\n   1 │ fn foo() {}\n   2 │ fn bar() {}\n```";
    assert_eq!(
        text,
        format!(
            "# Search: \"foo\" in . — 1 matches (1 definitions, 0 usages)\n\n## a.rs:1-1 [definition]\n→ [1]   fn foo() {{}}{block}\n\n---\n# Search: \"bar\" in . — 2 matches (1 definitions, 1 usages)\n\n## a.rs:2-2 [definition]\n→ [2]   fn bar() {{}}\n\n## b.rs:7 [usage]\n→ [7]   bar();\n\n```b.rs:1-1\n   1 │ bar();\n```"
        )
    );
    let none = search_multi_symbol_expanded(&Vec::new(), ".", &sources, &mut session, 3, None, &world());
    assert_eq!(none, "");
}

#[test]
fn format_search_result_with_expand_zero_ignores_sources() {
    let result = SearchResult {
        query: "q".to_string(),
        scope: ".".to_string(),
        matches: vec![hit("a.rs", 1, "q")],
        total_found: 1,
        definitions: 0,
        usages: 1,
    };
    let sources = vec![source("a.rs", 1, Some(expansion("q\n")))];
    let mut session = Session::new();
    let out = format_search_result(&result, &sources, &mut session, true, 0, &Vec::new());
    assert_eq!(out, "# Search: \"q\" in . — 1 matches (0 definitions, 1 usages)\n\n## a.rs:1 [usage]\n→ [1]   q");
}

#[test]
fn glob_result_orders_and_caps() {
    let file = |p: &str| GlobFile { path: p.to_string(), preview: Some(token_preview(4000)) };
    let r = glob_result(
        "*.rs",
        vec![file("src/b.rs"), file("src/a/z.rs"), file("src/a.rs")],
        vec!["rs".to_string(), "md".to_string(), "rs".to_string()],
    );
    let paths: Vec<&str> = r.files.iter().map(|f| f.path.as_str()).collect();
    assert_eq!(paths, vec!["src/a/z.rs", "src/a.rs", "src/b.rs"]);
    assert_eq!(r.files[0].preview.as_deref(), Some("~1000 tokens"));
    assert_eq!(r.total_found, 3);
    assert_eq!(r.pattern, "*.rs");
    assert_eq!(r.available_extensions, vec!["md".to_string(), "rs".to_string()]);
    let many: Vec<GlobFile> = (0..150).map(|i| file(&format!("f{i:03}.rs"))).collect();
    let capped = glob_result("*", many, Vec::new());
    assert_eq!(capped.files.len(), MAX_GLOB_FILES);
    assert_eq!(capped.total_found, 150);
    assert_eq!(capped.files[99].path, "f099.rs");
    assert_eq!(token_preview(3), "~0 tokens");
}

#[test]
fn related_files_are_imported_and_mentioned() {
    let content = "use crate::walker;\nuse crate::rank::sort;\nimport helper\n\n// rank is great\nfn run() {\n    walker::walk();\n    helper.go();\n}\n";
    let beside: Vec<String> = ["src/walker.rs", "src/rank.rs", "src/helper.py", "src/run.rs", "src/main.rs"]
        .iter()
        .map(|p| p.to_string())
        .collect();
    assert_eq!(
        related_files("src/main.rs", content, &beside),
        vec!["src/walker.rs".to_string(), "src/helper.py".to_string()]
    );
    assert!(related_files("src/walker.rs", "use walker;\nwalker();\n", &beside).is_empty());
    assert!(related_files("src/main.rs", "", &beside).is_empty());
}
