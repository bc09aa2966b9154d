use tilth::index::symbol::SymbolLocation;
use tilth::error::TilthError;
use tilth::search::callees::{
    attach_children, callee_tree, choose_definition, extract_callee_names, find_entry,
    located_callee,
};
use tilth::types::{OutlineEntry, OutlineKind};
use tilth::search::content::{find_content, find_regex, flagged_matches};
use tilth::search::package::parse_dirs;
use tilth::search::render::Callee;
use tilth::search::symbol::{
    find_definitions, find_usages, is_name_match, FileInfo,
};
use tilth::syntax::parse_tree;

fn rust() -> tree_sitter::Language {
    tree_sitter_rust::LANGUAGE.into()
}

fn python() -> tree_sitter::Language {
    tree_sitter_python::LANGUAGE.into()
}

fn info(path: &str) -> FileInfo {
    FileInfo { path: path.to_string(), file_lines: 12, mtime: 99 }
}

const SOURCE: &str = "use walk::Walker;\n\npub fn search_symbol(query: &str) -> usize {\n    let w = search(query); // search here\n    // search in a comment\n    research(w) + search_all()\n}\n\nfn search(q: &str) -> usize { q.len() }\n\nstruct Finder;\n\nimpl Search for Finder {}\n";

#[test]
fn definitions_whose_name_holds_the_query() {
    let root = parse_tree(&rust(), SOURCE).unwrap();
    let found = find_definitions(&root, SOURCE, &info("src/search/mod.rs"), "search");
    let shown: Vec<(u32, Option<&str>, bool, u16, Option<(u32, u32)>, Option<&str>)> = found
        .iter()
        .map(|m| (m.line, m.def_name.as_deref(), m.exact, m.def_weight, m.def_range, m.impl_target.as_deref()))
        .collect();
    assert_eq!(
        shown,
        vec![
            (3, Some("search_symbol"), false, 100, Some((3, 7)), None),
            (9, Some("search"), true, 100, Some((9, 9)), None),
            (13, Some("Search"), false, 90, Some((13, 13)), Some("Finder")),
        ]
    );
    assert!(found.iter().all(|m| m.is_definition && m.path == "src/search/mod.rs"));
    assert!(found.iter().all(|m| m.file_lines == 12 && m.mtime == 99));
    assert_eq!(found[0].text, "pub fn search_symbol(query: &str) -> usize {");
    assert!(find_definitions(&root, SOURCE, &info("a.rs"), "nothing").is_empty());
}

#[test]
fn name_match_ignores_case() {
    assert!(is_name_match("SearchSymbol", "search"));
    assert!(is_name_match("search", "SEARCH"));
    assert!(is_name_match("anything", ""));
    assert!(!is_name_match("sear", "search"));
}

#[test]
fn usages_are_whole_identifiers_outside_comments() {
    let found = find_usages(SOURCE, &info("src/search/mod.rs"), "search");
    let lines: Vec<u32> = found.iter().map(|m| m.line).collect();
    // Line 3 holds `search_symbol` only; line 5 is a comment; line 6 holds
    // `research` and `search_all` only.
    assert_eq!(lines, vec![4, 9]);
    assert!(found.iter().all(|m| !m.is_definition && !m.exact && m.def_range.is_none()));
    assert_eq!(found[0].text, "let w = search(query); // search here");
    assert!(find_usages(SOURCE, &info("a.rs"), "").is_empty());
    assert_eq!(find_usages("x.search()\nsearch\n  search  \n", &info("a.rs"), "search").len(), 3);
    assert!(find_usages("# search\n* search\n/* search */\n", &info("a.py"), "search").is_empty());
}

#[test]
fn match_text_is_trimmed_and_cut() {
    let long = format!("    let x = \"{}\"; marker", "é".repeat(150));
    let found = find_content(&long, &info("a.rs"), "marker");
    assert_eq!(found.len(), 1);
    assert!(found[0].text.len() <= 200);
    assert!(found[0].text.starts_with("let x = \"éé"));
    assert_eq!(found[0].text.chars().count(), 9 + 95);
}

#[test]
fn content_search_is_literal() {
    let found = find_content("a.b\naxb\n  a.b  \n", &info("t.txt"), "a.b");
    let lines: Vec<(u32, &str)> = found.iter().map(|m| (m.line, m.text.as_str())).collect();
    assert_eq!(lines, vec![(1, "a.b"), (3, "a.b")]);
    assert_eq!(find_content("a\nb\n", &info("t.txt"), "").len(), 2);
    assert!(find_content("", &info("t.txt"), "x").is_empty());
}

#[test]
fn callee_names_in_first_occurrence_order() {
    let root = parse_tree(&rust(), SOURCE).unwrap();
    assert_eq!(
        extract_callee_names(&root, SOURCE, Some((3, 7))),
        vec!["search", "research", "search_all"]
    );
    assert_eq!(extract_callee_names(&root, SOURCE, Some((9, 9))), vec!["len"]);
    assert_eq!(
        extract_callee_names(&root, SOURCE, None),
        vec!["search", "research", "search_all", "len"]
    );
    assert!(extract_callee_names(&root, SOURCE, Some((11, 13))).is_empty());
    let py = "def f(a):\n    a.run()\n    helper(a)\n    a.run()\n";
    let tree = parse_tree(&python(), py).unwrap();
    assert_eq!(extract_callee_names(&tree, py, Some((1, 4))), vec!["run", "helper"]);
}

fn loc(path: &str, line: u32, is_definition: bool) -> SymbolLocation {
    SymbolLocation { path: path.to_string(), line, is_definition, mtime: 0 }
}

#[test]
fn nearest_definition_is_chosen() {
    let known = parse_dirs(&vec!["/repo/a".to_string(), "/repo/b".to_string()]);
    let locations = vec![
        loc("/repo/b/x.rs", 1, true),
        loc("/repo/a/src/host.rs", 5, false),
        loc("/repo/a/src/other.rs", 7, true),
        loc("/repo/a/src/host.rs", 9, true),
        loc("/repo/a/lib.rs", 2, true),
    ];
    assert_eq!(choose_definition(&locations, "/repo/a/src/host.rs", &known), Some(3));
    assert_eq!(choose_definition(&locations, "/repo/a/src/new.rs", &known), Some(2));
    assert_eq!(choose_definition(&locations, "/repo/b/y.rs", &known), Some(0));
    assert_eq!(choose_definition(&locations, "/elsewhere/z.rs", &known), Some(0));
    assert_eq!(choose_definition(&vec![loc("a.rs", 1, false)], "a.rs", &known), None);
    assert_eq!(choose_definition(&Vec::new(), "a.rs", &known), None);
}

fn callee(name: &str, file: &str, line: u32) -> Callee {
    Callee {
        name: name.to_string(),
        file: file.to_string(),
        start_line: line,
        end_line: line + 2,
        signature: None,
    }
}

#[test]
fn second_hop_respects_budget_and_visits() {
    let mut seen = vec![callee("first", "a.rs", 1), callee("second", "b.rs", 1)];
    let mut budget = 2usize;
    let candidates = vec![
        callee("second", "b.rs", 1),
        callee("x", "c.rs", 5),
        callee("x again", "c.rs", 5),
        callee("y", "c.rs", 9),
        callee("z", "d.rs", 1),
    ];
    let node = attach_children(callee("first", "a.rs", 1), &candidates, &mut seen, &mut budget);
    let names: Vec<&str> = node.children.iter().map(|c| c.name.as_str()).collect();
    assert_eq!(names, vec!["x", "y"]);
    assert_eq!(node.callee.name, "first");
    assert_eq!(budget, 0);
    assert_eq!(seen.len(), 4);
    let more = attach_children(callee("second", "b.rs", 1), &candidates, &mut seen, &mut budget);
    assert!(more.children.is_empty());
}

#[test]
fn regex_lines() {
    let content = "fn a() {}\nlet x = 42;\n  let y = x7;  \nnothing\n";
    let found = find_regex(content, &info("t.rs"), r"\d+").unwrap();
    let lines: Vec<(u32, &str)> = found.iter().map(|m| (m.line, m.text.as_str())).collect();
    assert_eq!(lines, vec![(2, "let x = 42;"), (3, "let y = x7;")]);
    assert!(found.iter().all(|m| !m.is_definition && !m.exact && m.path == "t.rs"));
    let anchored = find_regex(content, &info("t.rs"), r"^let \w = \d\d;$").unwrap();
    assert_eq!(anchored.len(), 1);
    assert_eq!(anchored[0].line, 2);
    assert!(find_regex(content, &info("t.rs"), "zzz+").unwrap().is_empty());
}

#[test]
fn regex_that_does_not_compile_is_an_invalid_query() {
    match find_regex("a(b\n", &info("t.rs"), "a(b") {
        Err(TilthError::InvalidQuery { query, reason }) => {
            assert_eq!(query, "a(b");
            assert_eq!(reason, "not a valid regular expression");
        }
        _ => panic!("an unclosed group is no regular expression"),
    }
}

#[test]
fn flagged_lines_become_matches() {
    let ls: Vec<Vec<char>> = vec!["one".chars().collect(), " two ".chars().collect(), "three".chars().collect()];
    let found = flagged_matches(&ls, &info("t.txt"), &vec![false, true, true]);
    let lines: Vec<(u32, &str)> = found.iter().map(|m| (m.line, m.text.as_str())).collect();
    assert_eq!(lines, vec![(2, "two"), (3, "three")]);
    assert_eq!(flagged_matches(&ls, &info("t.txt"), &vec![true]).len(), 1);
    assert!(flagged_matches(&ls, &info("t.txt"), &Vec::new()).is_empty());
}

fn outline_entry(name: &str, start: u32, end: u32, children: Vec<OutlineEntry>) -> OutlineEntry {
    OutlineEntry {
        name: name.to_string(),
        kind: OutlineKind::Function,
        signature: Some(format!("fn {name}()")),
        start_line: start,
        end_line: end,
        children,
    }
}

#[test]
fn callee_is_described_by_the_outline() {
    let outline = vec![
        outline_entry("a", 1, 3, Vec::new()),
        outline_entry("T", 5, 20, vec![outline_entry("m", 6, 9, Vec::new())]),
    ];
    assert_eq!(find_entry(&outline, 6).map(|e| e.name.as_str()), Some("m"));
    assert_eq!(find_entry(&outline, 5).map(|e| e.name.as_str()), Some("T"));
    assert!(find_entry(&outline, 7).is_none());
    let at = |line: u32| SymbolLocation {
        path: "src/t.rs".to_string(),
        line,
        is_definition: true,
        mtime: 0,
    };
    let m = located_callee("m", &at(6), &outline);
    assert_eq!((m.name.as_str(), m.file.as_str(), m.start_line, m.end_line), ("m", "src/t.rs", 6, 9));
    assert_eq!(m.signature.as_deref(), Some("fn m()"));
    let lost = located_callee("x", &at(30), &outline);
    assert_eq!((lost.start_line, lost.end_line, lost.signature), (30, 30, None));
}

#[test]
fn callee_tree_shares_budget_and_visits_once() {
    let callee = |name: &str, line: u32| Callee {
        name: name.to_string(),
        file: "src/t.rs".to_string(),
        start_line: line,
        end_line: line + 1,
        signature: None,
    };
    let first = vec![callee("a", 10), callee("b", 20)];
    let many: Vec<Callee> = (0..20).map(|i| callee(&format!("c{i}"), 100 + 10 * i)).collect();
    let candidates = vec![
        vec![callee("b", 20), callee("x", 30), callee("x", 30)],
        many,
    ];
    let tree = callee_tree(&first, &candidates);
    assert_eq!(tree.len(), 2);
    assert_eq!(tree[0].callee.name, "a");
    let kids: Vec<&str> = tree[0].children.iter().map(|c| c.name.as_str()).collect();
    assert_eq!(kids, vec!["x"]);
    assert_eq!(tree[1].children.len(), 14);
    assert_eq!(tree[1].children[13].name, "c13");
    let alone = callee_tree(&first, &Vec::new());
    assert!(alone.iter().all(|n| n.children.is_empty()));
}
