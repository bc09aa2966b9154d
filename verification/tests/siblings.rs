use tilth::search::siblings::{find_parent_entry, resolve_siblings, sibling_query_str};
use tilth::types::{Lang, OutlineEntry, OutlineKind};

fn entry(name: &str, kind: OutlineKind, start: u32, end: u32) -> OutlineEntry {
    OutlineEntry {
        name: name.to_string(),
        kind,
        signature: None,
        start_line: start,
        end_line: end,
        children: Vec::new(),
    }
}

fn names(ns: &[&str]) -> Vec<String> {
    ns.iter().map(|n| n.to_string()).collect()
}

#[test]
fn siblings_methods_before_fields_then_by_name() {
    let mut method = entry("walk", OutlineKind::Method, 10, 20);
    method.signature = Some("fn walk(&self)".to_string());
    let children = vec![
        entry("zeta", OutlineKind::Field, 2, 2),
        entry("alpha", OutlineKind::Field, 3, 3),
        method,
        entry("build", OutlineKind::Function, 22, 30),
    ];
    let got = resolve_siblings(&names(&["zeta", "walk", "missing", "alpha", "build"]), &children);
    let shown: Vec<(&str, &str, u32, u32)> = got
        .iter()
        .map(|s| (s.name.as_str(), s.signature.as_str(), s.start_line, s.end_line))
        .collect();
    assert_eq!(
        shown,
        vec![
            ("build", "build", 22, 30),
            ("walk", "fn walk(&self)", 10, 20),
            ("alpha", "alpha", 3, 3),
            ("zeta", "zeta", 2, 2),
        ]
    );
    assert_eq!(got[0].kind, OutlineKind::Function);
}

#[test]
fn siblings_capped_at_six() {
    let children: Vec<OutlineEntry> = (0..10)
        .map(|i| entry(&format!("f{i}"), OutlineKind::Field, i + 1, i + 1))
        .collect();
    let wanted: Vec<String> = (0..10).rev().map(|i| format!("f{i}")).collect();
    let got = resolve_siblings(&wanted, &children);
    let shown: Vec<&str> = got.iter().map(|s| s.name.as_str()).collect();
    assert_eq!(shown, vec!["f0", "f1", "f2", "f3", "f4", "f5"]);
}

#[test]
fn siblings_take_first_child_of_a_name() {
    let children = vec![
        entry("dup", OutlineKind::Field, 1, 1),
        entry("dup", OutlineKind::Method, 5, 9),
    ];
    let got = resolve_siblings(&names(&["dup"]), &children);
    assert_eq!(got.len(), 1);
    assert_eq!(got[0].kind, OutlineKind::Field);
    assert!(resolve_siblings(&names(&[]), &children).is_empty());
    assert!(resolve_siblings(&names(&["dup"]), &Vec::new()).is_empty());
}

#[test]
fn parent_entry_by_child_start_line() {
    let mut a = entry("A", OutlineKind::Struct, 1, 9);
    a.children = vec![entry("x", OutlineKind::Field, 2, 2)];
    let mut b = entry("impl A", OutlineKind::Impl, 11, 40);
    b.children = vec![
        entry("new", OutlineKind::Method, 12, 20),
        entry("run", OutlineKind::Method, 22, 39),
    ];
    let entries = vec![a, b];
    assert_eq!(find_parent_entry(&entries, 22).map(|e| e.name.as_str()), Some("impl A"));
    assert_eq!(find_parent_entry(&entries, 2).map(|e| e.name.as_str()), Some("A"));
    assert!(find_parent_entry(&entries, 11).is_none());
    assert!(find_parent_entry(&Vec::new(), 1).is_none());
}

#[test]
fn outline_invariant_is_decided() {
    let mut parent = entry("impl A", OutlineKind::Impl, 10, 40);
    parent.children = vec![
        entry("new", OutlineKind::Method, 12, 20),
        entry("run", OutlineKind::Method, 22, 39),
    ];
    assert!(parent.is_well_formed());
    parent.children[1].start_line = 20;
    assert!(!parent.is_well_formed());
    parent.children[1].start_line = 22;
    parent.children[1].end_line = 41;
    assert!(!parent.is_well_formed());
    parent.children[1].end_line = 39;
    parent.children[0].children = vec![entry("inner", OutlineKind::Function, 19, 21)];
    assert!(!parent.is_well_formed());
    assert!(!entry("zero", OutlineKind::Field, 0, 3).is_well_formed());
    assert!(!entry("back", OutlineKind::Field, 5, 4).is_well_formed());
    assert!(entry("one", OutlineKind::Field, 1, 1).is_well_formed());
}

#[test]
fn sibling_queries_by_language() {
    assert!(sibling_query_str(Lang::Rust).unwrap().contains("(self)"));
    assert!(sibling_query_str(Lang::Python).unwrap().contains("@obj"));
    assert!(sibling_query_str(Lang::Tsx).unwrap().contains("(this)"));
    assert!(sibling_query_str(Lang::Java).unwrap().contains("method_invocation"));
    assert!(sibling_query_str(Lang::Go).unwrap().contains("@recv"));
    assert!(sibling_query_str(Lang::Ruby).is_none());
    assert!(sibling_query_str(Lang::C).is_none());
}
