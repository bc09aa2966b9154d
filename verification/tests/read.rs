use tilth::read::detect::{detect_file_type, file_type_from_name, mime_from_ext};
use tilth::read::suggest::{edit_distance, suggest_similar, suggest_similar_file};
use tilth::types::{FileType, Lang};

#[test]
fn detect_by_extension() {
    assert_eq!(detect_file_type("a/b.ts"), FileType::Code(Lang::TypeScript));
    assert_eq!(detect_file_type("b.tsx"), FileType::Code(Lang::Tsx));
    assert_eq!(detect_file_type("b.jsx"), FileType::Code(Lang::JavaScript));
    assert_eq!(detect_file_type("b.pyi"), FileType::Code(Lang::Python));
    assert_eq!(detect_file_type("src/lib.rs"), FileType::Code(Lang::Rust));
    assert_eq!(detect_file_type("m.go"), FileType::Code(Lang::Go));
    assert_eq!(detect_file_type("M.java"), FileType::Code(Lang::Java));
    assert_eq!(detect_file_type("m.h"), FileType::Code(Lang::C));
    assert_eq!(detect_file_type("m.cxx"), FileType::Code(Lang::Cpp));
    assert_eq!(detect_file_type("m.rb"), FileType::Code(Lang::Ruby));
    assert_eq!(detect_file_type("m.swift"), FileType::Code(Lang::Swift));
    assert_eq!(detect_file_type("m.kts"), FileType::Code(Lang::Kotlin));
    assert_eq!(detect_file_type("m.cs"), FileType::Code(Lang::CSharp));
    assert_eq!(detect_file_type("README.md"), FileType::Markdown);
    assert_eq!(detect_file_type("doc.rst"), FileType::Markdown);
    assert_eq!(detect_file_type("Cargo.toml"), FileType::StructuredData);
    assert_eq!(detect_file_type("data.tsv"), FileType::Tabular);
    assert_eq!(detect_file_type("out.log"), FileType::Log);
    assert_eq!(detect_file_type("photo.png"), FileType::Other);
    assert_eq!(detect_file_type("UPPER.RS"), FileType::Other);
}

#[test]
fn detect_by_name() {
    assert_eq!(detect_file_type("Dockerfile"), FileType::Code(Lang::Dockerfile));
    assert_eq!(detect_file_type("x/Containerfile"), FileType::Code(Lang::Dockerfile));
    assert_eq!(detect_file_type("GNUmakefile"), FileType::Code(Lang::Make));
    assert_eq!(detect_file_type("Rakefile"), FileType::Code(Lang::Ruby));
    assert_eq!(detect_file_type(".env"), FileType::StructuredData);
    assert_eq!(detect_file_type(".envrc"), FileType::StructuredData);
    // `.env.local` has the extension `local`, so the name is not looked at.
    assert_eq!(detect_file_type(".env.local"), FileType::Other);
    assert_eq!(detect_file_type("LICENSE"), FileType::Other);
    assert_eq!(detect_file_type(""), FileType::Other);
    assert_eq!(file_type_from_name("a/Makefile"), FileType::Code(Lang::Make));
    assert_eq!(file_type_from_name(".."), FileType::Other);
}

#[test]
fn mime_by_extension() {
    assert_eq!(mime_from_ext("a.png"), "image/png");
    assert_eq!(mime_from_ext("a.jpeg"), "image/jpeg");
    assert_eq!(mime_from_ext("a.tgz"), "application/gzip");
    assert_eq!(mime_from_ext("a.woff"), "font/woff2");
    assert_eq!(mime_from_ext("a.otf"), "font/ttf");
    assert_eq!(mime_from_ext("a.mp4"), "video/mp4");
    assert_eq!(mime_from_ext("a.bin"), "application/octet-stream");
    assert_eq!(mime_from_ext("noext"), "application/octet-stream");
}

#[test]
fn edit_distance_values() {
    assert_eq!(edit_distance("", ""), 0);
    assert_eq!(edit_distance("abc", ""), 3);
    assert_eq!(edit_distance("", "abcd"), 4);
    assert_eq!(edit_distance("kitten", "sitting"), 3);
    assert_eq!(edit_distance("flaw", "lawn"), 2);
    assert_eq!(edit_distance("main.rs", "main.rs"), 0);
    assert_eq!(edit_distance("main.rs", "mian.rs"), 2);
    // Bytes, not characters: "é" is two bytes.
    assert_eq!(edit_distance("e", "é"), 2);
}

#[test]
fn suggest_nearest_within_three() {
    let entries = vec![
        "walker.rs".to_string(),
        "mod.rs".to_string(),
        "walk.rs".to_string(),
        "rank.rs".to_string(),
    ];
    assert_eq!(suggest_similar("walks.rs", &entries), Some("walk.rs".to_string()));
    assert_eq!(suggest_similar("wolker.rs", &entries), Some("walker.rs".to_string()));
    assert_eq!(suggest_similar("completely_different", &entries), None);
    assert_eq!(suggest_similar("x", &Vec::new()), None);
}

#[test]
fn suggest_prefers_first_of_equally_near() {
    let entries = vec!["abd".to_string(), "abe".to_string(), "abc".to_string()];
    assert_eq!(suggest_similar("abx", &entries), Some("abd".to_string()));
    assert_eq!(suggest_similar("abc", &entries), Some("abc".to_string()));
}

#[test]
fn suggest_similar_file_uses_the_file_name() {
    let entries = vec!["mod.rs".to_string(), "rank.rs".to_string()];
    assert_eq!(
        suggest_similar_file("./src", "search/rnk.rs", &entries),
        Some("rank.rs".to_string())
    );
    assert_eq!(suggest_similar_file("./src", "..", &entries), None);
    assert_eq!(suggest_similar_file("/", "", &entries), None);
    assert_eq!(suggest_similar_file("src/mod.r", "", &entries), Some("mod.rs".to_string()));
}
