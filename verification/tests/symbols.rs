use tilth::index::symbol::{
    extract_symbols, is_indexable, symbols_of_tree, walk_definitions, IndexedFile, Symbol,
    SymbolIndex,
};
use tilth::search::siblings::{
    collect_references, extract_go_receiver_name, extract_sibling_references, pick_receiver,
    sort_and_dedup,
};
use tilth::search::treesitter::{
    child_by_field, definition_weight, extract_definition_name, extract_impl_trait,
    extract_impl_type, extract_implemented_interfaces, is_definition_kind, node_text_simple,
};
use tilth::syntax::{capture_of, parse_tree, QueryHit, SyntaxNode};
use tilth::types::Lang;

fn rust() -> tree_sitter::Language {
    tree_sitter_rust::LANGUAGE.into()
}

fn typescript() -> tree_sitter::Language {
    tree_sitter_typescript::LANGUAGE_TYPESCRIPT.into()
}

fn python() -> tree_sitter::Language {
    tree_sitter_python::LANGUAGE.into()
}

fn go() -> tree_sitter::Language {
    tree_sitter_go::LANGUAGE.into()
}

fn node(kind: &str, field: Option<&str>, row: usize, from: usize, to: usize) -> SyntaxNode {
    SyntaxNode {
        kind: kind.to_string(),
        field: field.map(String::from),
        start_row: row,
        start_column: from,
        end_row: row,
        end_column: to,
        children: Vec::new(),
    }
}

fn lines(text: &str) -> Vec<Vec<u8>> {
    text.lines().map(|l| l.as_bytes().to_vec()).collect()
}

fn names(symbols: &[Symbol]) -> Vec<&str> {
    symbols.iter().map(|s| s.name.as_str()).collect()
}

#[test]
fn test_empty_index() {
    let index = SymbolIndex::new();
    assert_eq!(index.symbol_count(), 0);
    assert_eq!(index.file_count(), 0);
    assert!(!index.is_built("/tmp"));
    assert!(index.lookup("foo", "/tmp").is_empty());
}

#[test]
fn test_extract_symbols_rust() {
    let content = r#"
pub struct Foo {
    bar: u32,
}

impl Foo {
    pub fn baz(&self) -> u32 {
        self.bar
    }
}

trait MyTrait {
    fn do_thing(&self);
}

impl MyTrait for Foo {
    fn do_thing(&self) {}
}
"#;
    let symbols = extract_symbols("tilth_test_extract_symbols/test.rs", content, Some(&rust()));
    let names = names(&symbols);
    assert!(names.contains(&"Foo"), "should find struct Foo: {names:?}");
    assert!(names.contains(&"baz"), "should find fn baz: {names:?}");
    assert!(names.contains(&"MyTrait"), "should find trait MyTrait: {names:?}");
    assert!(names.contains(&"do_thing"), "should find fn do_thing: {names:?}");
    assert!(symbols.iter().all(|s| s.is_definition));
}

#[test]
fn test_index_file() {
    let content = "pub fn hello() {}\npub fn world() {}";
    let dir = "/tmp/tilth_test_index_file";
    let path = "/tmp/tilth_test_index_file/test.rs";
    let lang = rust();

    let mut index = SymbolIndex::new();
    index.index_file(path, content, 0, Some(&lang));

    assert_eq!(index.file_count(), 1);
    let results = index.lookup("hello", dir);
    assert_eq!(results.len(), 1);
    assert!(results[0].is_definition);
    assert_eq!(results[0].line, 1);

    let results = index.lookup("world", dir);
    assert_eq!(results.len(), 1);
    assert_eq!(results[0].line, 2);

    let new_content = "pub fn hello() {}\npub fn updated() {}";
    index.index_file(path, new_content, 1, Some(&lang));

    assert!(index.lookup("world", dir).is_empty());
    assert_eq!(index.lookup("updated", dir).len(), 1);
    assert_eq!(index.lookup("hello", dir).len(), 1);
    assert_eq!(index.file_count(), 1);
    // The name stays in the index, with no location left.
    assert_eq!(index.symbol_count(), 3);
}

#[test]
fn test_lookup_definitions_filter() {
    let content = "pub fn target() {}";
    let dir = "/tmp/tilth_test_lookup_defs";
    let path = "/tmp/tilth_test_lookup_defs/test.rs";

    let mut index = SymbolIndex::new();
    index.index_file(path, content, 0, Some(&rust()));

    let defs = index.lookup_definitions("target", dir);
    assert_eq!(defs.len(), 1);
    assert!(defs[0].is_definition);

    let defs = index.lookup_definitions("target", "/nonexistent");
    assert!(defs.is_empty());
}

#[test]
fn test_extract_symbols_typescript() {
    let content = r#"
function greet(name: string): string {
    return `Hello, ${name}!`;
}

class Greeter {
    greeting: string;
    constructor(message: string) {
        this.greeting = message;
    }
}

interface Printable {
    print(): void;
}
"#;
    let symbols = extract_symbols("tilth_test_extract_ts/test.ts", content, Some(&typescript()));
    let names = names(&symbols);
    assert!(names.contains(&"greet"), "should find function greet: {names:?}");
    assert!(names.contains(&"Greeter"), "should find class Greeter: {names:?}");
    assert!(names.contains(&"Printable"), "should find interface Printable: {names:?}");
}

#[test]
fn test_extract_symbols_python() {
    let content = r#"
def hello():
    pass

class MyClass:
    def method(self):
        pass
"#;
    let symbols = extract_symbols("tilth_test_extract_py/test.py", content, Some(&python()));
    let names = names(&symbols);
    assert!(names.contains(&"hello"), "should find def hello: {names:?}");
    assert!(names.contains(&"MyClass"), "should find class MyClass: {names:?}");
}

#[test]
fn extract_symbols_needs_code_and_grammar() {
    assert!(extract_symbols("notes.md", "# fn x() {}", Some(&rust())).is_empty());
    assert!(extract_symbols("a.rs", "fn x() {}", None).is_empty());
    let symbols = extract_symbols("a.rs", "fn x() {}\n\nimpl T for S {}\n", Some(&rust()));
    let found: Vec<(&str, u32)> = symbols.iter().map(|s| (s.name.as_str(), s.line)).collect();
    assert_eq!(found, vec![("x", 1), ("T", 3), ("S", 3)]);
}

#[test]
fn parsed_tree_has_kinds_fields_and_positions() {
    let root = parse_tree(&rust(), "fn add(a: u8) {}\n").unwrap();
    assert_eq!(root.kind, "source_file");
    assert_eq!(root.field, None);
    let f = &root.children[0];
    assert_eq!(f.kind, "function_item");
    assert_eq!((f.start_row, f.start_column, f.end_row, f.end_column), (0, 0, 0, 16));
    let name = child_by_field(f, "name").unwrap();
    assert_eq!(name.kind, "identifier");
    assert_eq!((name.start_column, name.end_column), (3, 6));
    assert!(child_by_field(f, "body").is_some());
    assert!(child_by_field(f, "nothing").is_none());
    let text = "fn add(a: u8) {}\n";
    assert_eq!(node_text_simple(name, &lines(text)), "add");
    let symbols = symbols_of_tree(&root, text);
    assert_eq!(names(&symbols), vec!["add"]);
}

#[test]
fn node_text_of_hand_made_nodes() {
    let ls = lines("let alpha = 1;\nsecond line");
    assert_eq!(node_text_simple(&node("identifier", None, 0, 4, 9), &ls), "alpha");
    // The end column is cut to the line.
    assert_eq!(node_text_simple(&node("identifier", None, 0, 4, 99), &ls), "alpha = 1;");
    // A node that ends in a later row runs to the end of its first line.
    let mut multi = node("block", None, 0, 10, 3);
    multi.end_row = 1;
    assert_eq!(node_text_simple(&multi, &ls), "= 1;");
    assert_eq!(node_text_simple(&node("x", None, 5, 0, 1), &ls), "");
    assert_eq!(node_text_simple(&node("x", None, 0, 9, 4), &ls), "");
    assert_eq!(node_text_simple(&node("x", None, 1, 50, 60), &ls), "");
}

#[test]
fn definition_names_of_hand_made_nodes() {
    let ls = lines("const answer = value;\nexport function shown() {}");
    let mut plain = node("function_item", None, 0, 0, 21);
    plain.children = vec![node("identifier", Some("name"), 0, 6, 12)];
    assert_eq!(extract_definition_name(&plain, &ls), Some("answer".to_string()));

    // A declarator gives the name that it holds itself.
    let mut declarator = node("variable_declarator", Some("declarator"), 0, 6, 20);
    declarator.children = vec![node("identifier", Some("name"), 0, 6, 12)];
    let mut decl = node("lexical_declaration", None, 0, 0, 21);
    decl.children = vec![declarator];
    assert_eq!(extract_definition_name(&decl, &ls), Some("answer".to_string()));

    // A declarator without a name of its own gives its text.
    let mut bare = node("lexical_declaration", None, 0, 0, 21);
    bare.children = vec![node("init_declarator", Some("declarator"), 0, 6, 20)];
    assert_eq!(extract_definition_name(&bare, &ls), Some("answer = value".to_string()));

    // An export statement gives the name of the first definition it holds.
    let mut func = node("function_declaration", None, 1, 7, 26);
    func.children = vec![node("identifier", Some("name"), 1, 16, 21)];
    let mut export = node("export_statement", None, 1, 0, 26);
    export.children = vec![node("export", None, 1, 0, 6), func];
    assert_eq!(extract_definition_name(&export, &ls), Some("shown".to_string()));

    assert_eq!(extract_definition_name(&node("function_item", None, 0, 0, 5), &ls), None);
    let mut empty_name = node("function_item", None, 0, 0, 5);
    empty_name.children = vec![node("identifier", Some("name"), 0, 3, 3)];
    assert_eq!(extract_definition_name(&empty_name, &ls), None);
}

#[test]
fn impl_and_interface_names() {
    let ls = lines("impl Show for Point {}\nclass A implements B, C {}");
    let mut imp = node("impl_item", None, 0, 0, 22);
    imp.children = vec![
        node("type_identifier", Some("trait"), 0, 5, 9),
        node("type_identifier", Some("type"), 0, 14, 19),
    ];
    assert_eq!(extract_impl_trait(&imp, &ls), Some("Show".to_string()));
    assert_eq!(extract_impl_type(&imp, &ls), Some("Point".to_string()));
    let inherent = node("impl_item", None, 0, 0, 22);
    assert_eq!(extract_impl_trait(&inherent, &ls), None);

    let mut clause = node("implements_clause", None, 1, 8, 23);
    clause.children = vec![
        node("implements", None, 1, 8, 18),
        node("type_identifier", None, 1, 19, 20),
        node(",", None, 1, 20, 21),
        node("type_identifier", None, 1, 22, 23),
    ];
    let mut class = node("class_declaration", None, 1, 0, 26);
    class.children = vec![node("type_identifier", Some("name"), 1, 6, 7), clause];
    assert_eq!(extract_implemented_interfaces(&class, &ls), vec!["B", "C"]);
    let mut symbols = Vec::new();
    walk_definitions(&class, &ls, &mut symbols, 0);
    let found: Vec<(&str, u32)> = symbols.iter().map(|s| (s.name.as_str(), s.line)).collect();
    assert_eq!(found, vec![("A", 2), ("B", 2), ("C", 2)]);
}

#[test]
fn walk_stops_below_depth_three() {
    let ls = lines("a b c d e f");
    let mut n = node("function_item", None, 0, 10, 11);
    n.children = vec![node("identifier", Some("name"), 0, 10, 11)];
    for (i, col) in [8usize, 6, 4, 2, 0].into_iter().enumerate() {
        let mut outer = node("function_item", None, 0, col, 11);
        outer.children = vec![node("identifier", Some("name"), 0, col, col + 1), n];
        n = outer;
        let _ = i;
    }
    let mut symbols = Vec::new();
    walk_definitions(&n, &ls, &mut symbols, 0);
    assert_eq!(names(&symbols), vec!["a", "b", "c", "d"]);
    let mut deep = Vec::new();
    walk_definitions(&n, &ls, &mut deep, 4);
    assert!(deep.is_empty());
}

#[test]
fn definition_kinds_and_weights() {
    for kind in ["function_item", "struct_item", "impl_item", "export_statement", "type_declaration"] {
        assert!(is_definition_kind(kind));
    }
    assert!(!is_definition_kind("identifier"));
    assert!(!is_definition_kind("call_expression"));
    assert_eq!(definition_weight("function_item"), 100);
    assert_eq!(definition_weight("class_definition"), 100);
    assert_eq!(definition_weight("decorated_definition"), 100);
    assert_eq!(definition_weight("impl_item"), 90);
    assert_eq!(definition_weight("const_item"), 80);
    assert_eq!(definition_weight("static_item"), 80);
    assert_eq!(definition_weight("mod_item"), 70);
    assert_eq!(definition_weight("lexical_declaration"), 40);
    assert_eq!(definition_weight("export_statement"), 30);
    assert_eq!(definition_weight("type_alias_declaration"), 50);
    assert_eq!(definition_weight("anything"), 50);
}

#[test]
fn index_records_and_forgets() {
    let mut index = SymbolIndex::new();
    let sym = |name: &str, line: u32| Symbol { name: name.to_string(), line, is_definition: true };
    index.build(&vec![
        IndexedFile { path: "src/a.rs".to_string(), mtime: 5, symbols: vec![sym("run", 3), sym("stop", 9)] },
        IndexedFile { path: "src/b.rs".to_string(), mtime: 6, symbols: vec![sym("run", 1)] },
        IndexedFile { path: "docs/empty.rs".to_string(), mtime: 7, symbols: Vec::new() },
    ]);
    assert_eq!(index.file_count(), 3);
    assert_eq!(index.symbol_count(), 2);
    assert!(index.is_built("src"));
    assert!(index.is_built("docs"));
    assert!(!index.is_built("sr"));
    let run: Vec<(String, u32, u64)> =
        index.lookup("run", "src").into_iter().map(|l| (l.path, l.line, l.mtime)).collect();
    assert_eq!(run, vec![("src/a.rs".to_string(), 3, 5), ("src/b.rs".to_string(), 1, 6)]);
    assert_eq!(index.lookup("run", "src/a.rs").len(), 1);
    assert!(index.lookup("run", "docs").is_empty());
    assert!(index.lookup("missing", "src").is_empty());
    index.record("src/c.rs", 8, &vec![Symbol { name: "run".to_string(), line: 2, is_definition: false }]);
    assert_eq!(index.lookup("run", "src").len(), 3);
    assert_eq!(index.lookup_definitions("run", "src").len(), 2);
    // Paths are known by their components.
    index.index_symbols("src//a.rs", 9, &vec![sym("go", 1)]);
    assert_eq!(index.file_count(), 4);
    assert!(index.lookup("stop", "src").is_empty());
    assert_eq!(index.lookup("run", "src").len(), 2);
    assert_eq!(index.lookup("go", "src").len(), 1);
    index.forget("src/b.rs");
    assert_eq!(index.lookup("run", "src").len(), 1);
}

#[test]
fn indexable_files() {
    assert!(is_indexable("a.rs", 500_000, true));
    assert!(!is_indexable("a.rs", 500_001, true));
    assert!(!is_indexable("a.rs", 10, false));
    assert!(!is_indexable("a.md", 10, true));
}

#[test]
fn sibling_references_in_rust() {
    let content = "impl A {\n    fn run(&self) {\n        self.step();\n        self.count + self.count\n    }\n    fn other(&self) { self.hidden }\n}\n";
    let lang = rust();
    let refs = extract_sibling_references(content, Lang::Rust, (2, 5), Some(&lang));
    assert_eq!(refs, vec!["count", "step"]);
    let all = extract_sibling_references(content, Lang::Rust, (1, 7), Some(&lang));
    assert_eq!(all, vec!["count", "hidden", "step"]);
    assert!(extract_sibling_references(content, Lang::Rust, (2, 5), None).is_empty());
    assert!(extract_sibling_references(content, Lang::Ruby, (2, 5), Some(&lang)).is_empty());
}

#[test]
fn sibling_references_in_python_and_go() {
    let py = "class A:\n    def run(self, other):\n        self.step()\n        other.skip()\n        return self.count\n";
    let refs = extract_sibling_references(py, Lang::Python, (2, 5), Some(&python()));
    assert_eq!(refs, vec!["count", "step"]);
    let go_src = "package p\n\nfunc (s *Server) Run(o *Other) {\n\ts.step()\n\to.skip()\n\t_ = s.count\n}\n";
    let lang = go();
    assert_eq!(extract_go_receiver_name(go_src, &lang), Some("s".to_string()));
    let refs = extract_sibling_references(go_src, Lang::Go, (3, 7), Some(&lang));
    assert_eq!(refs, vec!["count", "step"]);
    let no_method = "package p\n\nfunc Run(o *Other) {\n\to.skip()\n}\n";
    assert_eq!(extract_go_receiver_name(no_method, &lang), None);
    assert!(extract_sibling_references(no_method, Lang::Go, (3, 5), Some(&lang)).is_empty());
}

#[test]
fn references_from_hand_made_matches() {
    let hit = |caps: Vec<(&str, Option<&str>, usize)>| QueryHit {
        captures: caps.into_iter().map(|(n, t, r)| capture_of(n, t, r)).collect(),
    };
    let hits = vec![
        hit(vec![("obj", Some("self"), 1), ("ref", Some("b"), 1)]),
        hit(vec![("obj", Some("other"), 2), ("ref", Some("x"), 2)]),
        hit(vec![("obj", Some("self"), 3), ("ref", Some("a"), 3), ("ref", None, 3)]),
        hit(vec![("obj", Some("self"), 9), ("ref", Some("late"), 9)]),
        hit(vec![("obj", Some("self"), 0), ("ref", Some("early"), 0)]),
    ];
    assert_eq!(collect_references(&hits, Lang::Python, &None, (2, 5)), vec!["b", "a"]);
    // Other languages take every match.
    assert_eq!(collect_references(&hits, Lang::Rust, &None, (2, 5)), vec!["b", "x", "a"]);
    // Go needs a receiver.
    assert!(collect_references(&hits, Lang::Go, &None, (2, 5)).is_empty());
    let go_hits = vec![
        hit(vec![("recv", Some("s"), 1), ("ref", Some("f"), 1)]),
        hit(vec![("recv", Some("o"), 1), ("ref", Some("g"), 1)]),
    ];
    assert_eq!(collect_references(&go_hits, Lang::Go, &Some("s".to_string()), (1, 9)), vec!["f"]);
    assert_eq!(pick_receiver(&go_hits), Some("s".to_string()));
    assert_eq!(pick_receiver(&Vec::new()), None);
    assert_eq!(pick_receiver(&hits), None);
    let names = vec!["b", "a", "c", "a", "b", "A"].into_iter().map(String::from).collect();
    assert_eq!(sort_and_dedup(names), vec!["A", "a", "b", "c"]);
    assert!(sort_and_dedup(Vec::new()).is_empty());
}
