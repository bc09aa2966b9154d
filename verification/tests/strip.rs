use tilth::search::strip::{detect_lang, strip_noise, StripLang};

fn path(ext: &str) -> String {
    format!("test.{ext}")
}

#[test]
fn consecutive_blanks_collapsed() {
    let content = "fn foo() {\n    let x = 1;\n\n\n\n    let y = 2;\n}\n";
    let skip = strip_noise(content, &path("rs"), Some((1, 6)));
    assert!(!skip.contains(&3));
    assert!(skip.contains(&4));
    assert!(skip.contains(&5));
}

#[test]
fn rust_debug_log_stripped() {
    let content = "fn foo() {\n    debug!(\"hi\");\n    dbg!(x);\n    error!(\"bad\");\n}\n";
    let skip = strip_noise(content, &path("rs"), Some((1, 5)));
    assert!(skip.contains(&2));
    assert!(skip.contains(&3));
    assert!(!skip.contains(&4));
}

#[test]
fn js_console_log_stripped() {
    let content = "function foo() {\n  console.log('hi');\n  console.error('bad');\n}\n";
    let skip = strip_noise(content, &path("ts"), Some((1, 4)));
    assert!(skip.contains(&2));
    assert!(!skip.contains(&3));
}

#[test]
fn python_print_stripped() {
    let content = "def foo():\n    print(x)\n    logger.error('bad')\n";
    let skip = strip_noise(content, &path("py"), Some((1, 3)));
    assert!(skip.contains(&2));
    assert!(!skip.contains(&3));
}

#[test]
fn go_fmt_println_stripped() {
    let content = "func foo() {\n\tfmt.Println(\"debug\")\n\tlog.Fatalf(\"fatal\")\n}\n";
    let skip = strip_noise(content, &path("go"), Some((1, 4)));
    assert!(skip.contains(&2));
    assert!(!skip.contains(&3));
}

#[test]
fn comment_stripped_unless_marker() {
    let content =
        "fn foo() {\n    // just a comment\n    // TODO: fix this\n    /// doc comment\n}\n";
    let skip = strip_noise(content, &path("rs"), Some((1, 5)));
    assert!(skip.contains(&2));
    assert!(!skip.contains(&3));
    assert!(!skip.contains(&4));
}

#[test]
fn no_range_returns_empty() {
    let content = "fn foo() {}\n";
    let skip = strip_noise(content, &path("rs"), None);
    assert!(skip.is_empty());
}

#[test]
fn unsupported_lang_returns_empty() {
    let content = "fn foo() {}\n";
    let skip = strip_noise(content, &path("txt"), Some((1, 1)));
    assert!(skip.is_empty());
}

#[test]
fn ruby_not_supported() {
    let content = "def foo\n  puts 'hi'\nend\n";
    let skip = strip_noise(content, &path("rb"), Some((1, 3)));
    assert!(skip.is_empty());
}

#[test]
fn jsdoc_continuation_preserved() {
    let content = "function f() {\n  /**\n   * JSDoc line\n   */\n  // plain comment\n}\n";
    let skip = strip_noise(content, &path("js"), Some((1, 6)));
    assert!(!skip.contains(&2));
    assert!(!skip.contains(&3));
    assert!(!skip.contains(&4));
    assert!(skip.contains(&5));
}

#[test]
fn strip_only_inside_range() {
    let content = "// a\n// b\n// c\n// d\n";
    let skip = strip_noise(content, &path("rs"), Some((2, 3)));
    let mut got: Vec<u32> = skip.into_iter().collect();
    got.sort();
    assert_eq!(got, vec![2, 3]);
    // A range past the end of the file stops at the last line.
    let tail = strip_noise(content, &path("rs"), Some((3, 100)));
    let mut got: Vec<u32> = tail.into_iter().collect();
    got.sort();
    assert_eq!(got, vec![3, 4]);
    assert!(strip_noise(content, &path("rs"), Some((0, 4))).is_empty());
    assert!(strip_noise(content, &path("rs"), Some((9, 12))).is_empty());
}

#[test]
fn blank_run_counts_from_range_start() {
    // Lines 2 and 3 are blank; a range that starts at 3 keeps line 3.
    let content = "a\n\n\n\nb\n";
    let skip = strip_noise(content, &path("rs"), Some((3, 5)));
    assert!(!skip.contains(&3));
    assert!(skip.contains(&4));
}

#[test]
fn marker_in_any_case_protects() {
    let content = "# note: keep\n# drop me\n\"\"\"doc\"\"\"\nlogging.debug(1)\n";
    let skip = strip_noise(content, &path("py"), Some((1, 4)));
    assert!(!skip.contains(&1));
    assert!(skip.contains(&2));
    assert!(!skip.contains(&3));
    assert!(skip.contains(&4));
}

#[test]
fn detect_lang_by_extension() {
    assert_eq!(detect_lang("a/b/main.rs"), Some(StripLang::Rust));
    assert_eq!(detect_lang("x.pyi"), Some(StripLang::Python));
    assert_eq!(detect_lang("x.mjs"), Some(StripLang::JsTs));
    assert_eq!(detect_lang("x.kts"), Some(StripLang::JavaKotlinCSharp));
    assert_eq!(detect_lang("x.hpp"), Some(StripLang::CppC));
    assert_eq!(detect_lang("x.go"), Some(StripLang::Go));
    assert_eq!(detect_lang("Makefile"), None);
    assert_eq!(detect_lang(".rs"), None);
    assert_eq!(detect_lang("dir.rs/"), Some(StripLang::Rust));
}

#[test]
fn cpp_and_java_logs() {
    let content = "printf(\"x\");\ncout << 1;\ncout<<2;\nstd::cout << 3;\ncoutx();\n";
    let skip = strip_noise(content, &path("cc"), Some((1, 5)));
    let mut got: Vec<u32> = skip.into_iter().collect();
    got.sort();
    assert_eq!(got, vec![1, 2, 3, 4]);
    let java = "System.out.println(1);\nLog.d(2);\nlog.info(3);\n/// keep\n// go\n";
    let skip = strip_noise(java, &path("java"), Some((1, 5)));
    let mut got: Vec<u32> = skip.into_iter().collect();
    got.sort();
    assert_eq!(got, vec![1, 2, 5]);
}
