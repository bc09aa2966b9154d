use tilth::read::outline::code::{
    classify_declaration, code_outline, outline_entries, render_outline,
};
use tilth::read::outline::generate;
use tilth::syntax::parse_tree;
use tilth::types::{FileType, Lang, OutlineEntry, OutlineKind};

fn rust() -> tree_sitter::Language {
    tree_sitter_rust::LANGUAGE.into()
}

fn entry(name: &str, kind: OutlineKind, sig: Option<&str>, start: u32, end: u32) -> OutlineEntry {
    OutlineEntry {
        name: name.to_string(),
        kind,
        signature: sig.map(String::from),
        start_line: start,
        end_line: end,
        children: Vec::new(),
    }
}

const SOURCE: &str = "use std::fmt;\nuse std::io;\n\npub struct Point {\n    x: i32,\n}\n\nimpl Point {\n    pub fn new() -> Self {\n        Point { x: 0 }\n    }\n\n    fn norm(&self) -> i32 {\n        self.x\n    }\n}\n\nfn main() {}\n";

#[test]
fn outline_of_rust_source() {
    let root = parse_tree(&rust(), SOURCE).unwrap();
    let entries = outline_entries(&root, SOURCE);
    let top: Vec<(&str, OutlineKind, u32, u32)> =
        entries.iter().map(|e| (e.name.as_str(), e.kind, e.start_line, e.end_line)).collect();
    assert_eq!(top[0].1, OutlineKind::Import);
    assert_eq!(top[1].1, OutlineKind::Import);
    assert_eq!(top[2], ("Point", OutlineKind::Struct, 4, 6));
    assert_eq!((top[3].1, top[3].2, top[3].3), (OutlineKind::Impl, 8, 16));
    assert_eq!(top[4], ("main", OutlineKind::Function, 18, 18));
    let fields: Vec<(&str, OutlineKind)> =
        entries[2].children.iter().map(|c| (c.name.as_str(), c.kind)).collect();
    assert_eq!(fields, vec![("x", OutlineKind::Field)]);
    let methods: Vec<(&str, OutlineKind, u32, u32)> = entries[3]
        .children
        .iter()
        .map(|c| (c.name.as_str(), c.kind, c.start_line, c.end_line))
        .collect();
    assert_eq!(
        methods,
        vec![("new", OutlineKind::Method, 9, 11), ("norm", OutlineKind::Method, 13, 15)]
    );
    assert_eq!(entries[3].children[0].signature, Some("pub fn new() -> Self {".to_string()));
    for e in &entries {
        assert!(e.is_well_formed());
    }
    for pair in entries.windows(2) {
        assert!(pair[0].end_line < pair[1].start_line);
    }
}

#[test]
fn outline_rendering() {
    let mut imp = entry("impl Point", OutlineKind::Impl, Some("impl Point {"), 8, 16);
    imp.children = vec![
        entry("new", OutlineKind::Method, Some("pub fn new() -> Self {"), 9, 11),
        entry("norm", OutlineKind::Method, None, 13, 15),
    ];
    let entries = vec![
        entry("use std::fmt;", OutlineKind::Import, None, 1, 1),
        entry("use std::io;", OutlineKind::Import, None, 2, 2),
        entry("Point", OutlineKind::Struct, Some("pub struct Point {"), 4, 6),
        imp,
    ];
    assert_eq!(
        render_outline(&entries),
        "[1-2] imports\n[4-6] Point  pub struct Point {\n[8-16] impl Point  impl Point {\n[9-11]   new  pub fn new() -> Self {\n[13-15]   norm"
    );
    assert_eq!(render_outline(&Vec::new()), "");
    assert_eq!(
        render_outline(&vec![entry("main", OutlineKind::Function, None, 3, 9)]),
        "[3-9] main"
    );
    assert_eq!(
        render_outline(&vec![entry("use a;", OutlineKind::Import, None, 1, 1)]),
        "[1-1] imports"
    );
}

#[test]
fn outline_rendering_stops_at_depth_three() {
    let mut e = entry("l4", OutlineKind::Function, None, 5, 5);
    for (i, name) in ["l3", "l2", "l1", "l0"].into_iter().enumerate() {
        let mut outer = entry(name, OutlineKind::Function, None, 4 - i as u32, 6 + i as u32);
        outer.children = vec![e];
        e = outer;
    }
    assert_eq!(
        render_outline(&vec![e]),
        "[1-9] l0\n[2-8]   l1\n[3-7]     l2\n[4-6]       l3"
    );
}

#[test]
fn declaration_kinds() {
    assert_eq!(classify_declaration("use_declaration"), Some(OutlineKind::Import));
    assert_eq!(classify_declaration("import_from_statement"), Some(OutlineKind::Import));
    assert_eq!(classify_declaration("function_item"), Some(OutlineKind::Function));
    assert_eq!(classify_declaration("method_definition"), Some(OutlineKind::Method));
    assert_eq!(classify_declaration("class_definition"), Some(OutlineKind::Class));
    assert_eq!(classify_declaration("struct_item"), Some(OutlineKind::Struct));
    assert_eq!(classify_declaration("trait_item"), Some(OutlineKind::Interface));
    assert_eq!(classify_declaration("enum_declaration"), Some(OutlineKind::Enum));
    assert_eq!(classify_declaration("type_item"), Some(OutlineKind::TypeAlias));
    assert_eq!(classify_declaration("static_item"), Some(OutlineKind::Constant));
    assert_eq!(classify_declaration("mod_item"), Some(OutlineKind::Module));
    assert_eq!(classify_declaration("impl_item"), Some(OutlineKind::Impl));
    assert_eq!(classify_declaration("field_declaration"), Some(OutlineKind::Field));
    assert_eq!(classify_declaration("block"), None);
}

#[test]
fn generate_by_file_type() {
    let lang = rust();
    let code = generate(FileType::Code(Lang::Rust), SOURCE, SOURCE.as_bytes(), false, Some(&lang));
    assert!(code.starts_with("[1-2] imports\n[4-6] Point  pub struct Point {\n[5-5]   x  x: i32,\n[8-16] "));
    assert!(code.ends_with("\n[18-18] main  fn main() {}"));
    assert_eq!(generate(FileType::Code(Lang::Rust), SOURCE, SOURCE.as_bytes(), false, None), "");
    let md = "# A\n## B\n";
    assert_eq!(generate(FileType::Markdown, md, md.as_bytes(), false, None), "[1] A\n[2]   B");
    assert_eq!(generate(FileType::StructuredData, "{}", b"{}", false, None), "");
    assert_eq!(generate(FileType::Other, "x", b"x", true, None), "");
    let mut many = String::new();
    for i in 0..120 {
        many.push_str(&format!("# h{i}\n"));
    }
    assert_eq!(generate(FileType::Markdown, &many, many.as_bytes(), false, None).lines().count(), 100);
    assert_eq!(generate(FileType::Markdown, &many, many.as_bytes(), true, None).lines().count(), 50);
}

#[test]
fn code_outline_renders_the_entries_of_the_tree() {
    let root = parse_tree(&rust(), SOURCE).unwrap();
    let text = code_outline(&root, SOURCE);
    assert_eq!(text, render_outline(&outline_entries(&root, SOURCE)));
    let lines: Vec<&str> = text.lines().collect();
    assert_eq!(lines[0], "[1-2] imports");
    assert_eq!(lines[1], "[4-6] Point  pub struct Point {");
    assert_eq!(lines[2], "[5-5]   x  x: i32,");
    assert_eq!(lines.last().copied(), Some("[18-18] main  fn main() {}"));
}
