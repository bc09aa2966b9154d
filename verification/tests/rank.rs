use tilth::search::facets::{facet_matches, is_test_match};
use tilth::search::package::is_manifest_name;
use tilth::search::rank::{
    basename_boost, is_vendor_path, path_sort_key, prepare, recency, scope_proximity, score, sort,
    Workspace,
};
use tilth::order::key_less;
use tilth::types::Match;

fn hit(path: &str, line: u32) -> Match {
    Match {
        path: path.to_string(),
        line,
        text: String::new(),
        is_definition: false,
        def_range: None,
        def_name: None,
        def_weight: 0,
        impl_target: None,
        exact: false,
        file_lines: 0,
        mtime: 0,
    }
}

fn def(path: &str, line: u32, weight: u16) -> Match {
    let mut m = hit(path, line);
    m.is_definition = true;
    m.def_weight = weight;
    m.def_range = Some((line, line + 3));
    m
}

fn world() -> Workspace {
    // Far in the future of every mtime used here: recency earns nothing.
    Workspace { now: 10_000_000_000, manifest_dirs: vec!["/repo".to_string()] }
}

fn order(ms: &[Match]) -> Vec<(String, u32)> {
    ms.iter().map(|m| (m.path.clone(), m.line)).collect()
}

#[test]
fn recency_buckets() {
    let now = 10_000_000;
    assert_eq!(recency(now, now), 100);
    assert_eq!(recency(now - 3_600, now), 100);
    assert_eq!(recency(now - 3_601, now), 80);
    assert_eq!(recency(now - 86_400, now), 80);
    assert_eq!(recency(now - 86_401, now), 50);
    assert_eq!(recency(now - 604_800, now), 50);
    assert_eq!(recency(now - 604_801, now), 20);
    assert_eq!(recency(now - 2_592_000, now), 20);
    assert_eq!(recency(now - 2_592_001, now), 0);
    assert_eq!(recency(0, now), 0);
    // A file from the future counts as just changed.
    assert_eq!(recency(now + 5, now), 100);
}

#[test]
fn scope_proximity_by_depth() {
    assert_eq!(scope_proximity("./src/a.rs", "./src"), 180);
    assert_eq!(scope_proximity("./src/x/y/a.rs", "./src"), 140);
    assert_eq!(scope_proximity("./src", "./src"), 200);
    assert_eq!(scope_proximity("a/b/c/d/e/f/g/h/i/j", ""), 0);
    assert_eq!(scope_proximity("a/b/c/d/e/f/g/h/i/j/k/l", ""), 0);
    // Not under the scope: every component counts.
    assert_eq!(scope_proximity("/other/a.rs", "/repo"), 140);
}

#[test]
fn basename_boost_levels() {
    assert_eq!(basename_boost("src/walk.rs", "walk"), 300);
    assert_eq!(basename_boost("src/Walk.rs", "wALK"), 300);
    assert_eq!(basename_boost("src/walk_test.rs", "walk"), 150);
    assert_eq!(basename_boost("src/walk.spec.ts", "walk"), 150);
    assert_eq!(basename_boost("src/walker.rs", "walk"), 100);
    assert_eq!(basename_boost("src/tree_walk.rs", "walk"), 100);
    assert_eq!(basename_boost("src/mod.rs", "walk"), 0);
    assert_eq!(basename_boost("src/walk.rs", ""), 0);
    assert_eq!(basename_boost("..", "walk"), 0);
}

#[test]
fn vendor_paths() {
    assert!(is_vendor_path("a/node_modules/b.js"));
    assert!(is_vendor_path("target/debug/x"));
    assert!(is_vendor_path("./.git/config"));
    assert!(is_vendor_path("out"));
    assert!(!is_vendor_path("src/output/a.rs"));
    assert!(!is_vendor_path("src/vendored/a.rs"));
    assert!(!is_vendor_path(""));
}

#[test]
fn manifest_names() {
    for name in [
        "Cargo.toml", "package.json", "pyproject.toml", "setup.py", "go.mod", "pom.xml",
        "build.gradle",
    ] {
        assert!(is_manifest_name(name));
    }
    assert!(!is_manifest_name("cargo.toml"));
    assert!(!is_manifest_name("Makefile"));
}

#[test]
fn score_sums_its_terms() {
    let w = world();
    let prepared = prepare(None, &w);
    let mut m = def("./src/search/mod.rs", 10, 100);
    m.exact = true;
    m.file_lines = 150;
    // 1000 (definition) + 500 (exact) + 160 (two below scope) + 50 (size).
    assert_eq!(score(&m, "zzz", "./src", None, &prepared), 1710);
    let u = hit("./src/vendor/a.rs", 3);
    // 160 (two below scope) - 200 (vendor).
    assert_eq!(score(&u, "zzz", "./src", None, &prepared), -40);
}

#[test]
fn score_context_boosts() {
    let w = world();
    let ctx = Some("/repo/src/edit.rs");
    let prepared = prepare(ctx, &w);
    let same_dir = hit("/repo/src/other.rs", 1);
    let same_pkg = hit("/repo/tests/t.rs", 1);
    let outside = hit("/elsewhere/t.rs", 1);
    let base = |m: &Match| score(m, "q", "/", None, &prepare(None, &w));
    assert_eq!(score(&same_dir, "q", "/", ctx, &prepared) - base(&same_dir), 100);
    assert_eq!(score(&same_pkg, "q", "/", ctx, &prepared) - base(&same_pkg), 75);
    assert_eq!(score(&outside, "q", "/", ctx, &prepared) - base(&outside), 0);
}

#[test]
fn sort_puts_basename_match_first() {
    // Both files define `walk`; the file named after the query wins by 300.
    let mut ms = vec![
        def("./src/search/mod.rs", 40, 100),
        def("./src/search/walker.rs", 90, 100),
        def("./src/search/walk.rs", 7, 100),
    ];
    for m in ms.iter_mut() {
        m.exact = true;
    }
    sort(&mut ms, "walk", "./src", None, &world());
    assert_eq!(
        order(&ms),
        vec![
            ("./src/search/walk.rs".to_string(), 7),
            ("./src/search/walker.rs".to_string(), 90),
            ("./src/search/mod.rs".to_string(), 40),
        ]
    );
}

#[test]
fn sort_definition_substring_ranks_first() {
    // `search_symbol` is defined in src/search/mod.rs; the query is `search`.
    let mut ms = vec![hit("./src/main.rs", 5), hit("./src/search/mod.rs", 300)];
    let mut d = def("./src/search/mod.rs", 129, 100);
    d.def_name = Some("search_symbol".to_string());
    ms.push(d);
    sort(&mut ms, "search", "./src", None, &world());
    assert!(ms[0].is_definition);
    assert!(!ms[0].exact);
    assert_eq!((ms[0].path.as_str(), ms[0].line), ("./src/search/mod.rs", 129));
}

#[test]
fn sort_breaks_ties_by_path_then_line() {
    let mut ms = vec![
        hit("b/x.rs", 9),
        hit("a/x.rs", 9),
        hit("a/x.rs", 2),
        hit("a-b/x.rs", 1),
        hit("a/x.rs", 2),
    ];
    sort(&mut ms, "q", "", None, &world());
    assert_eq!(
        order(&ms),
        vec![
            ("a/x.rs".to_string(), 2),
            ("a/x.rs".to_string(), 2),
            ("a/x.rs".to_string(), 9),
            ("a-b/x.rs".to_string(), 1),
            ("b/x.rs".to_string(), 9),
        ]
    );
}

#[test]
fn sort_is_idempotent_and_keeps_everything() {
    let mut ms = Vec::new();
    for i in 0..40u32 {
        let mut m = if i % 3 == 0 {
            def(&format!("src/d{}/f{}.rs", i % 5, i % 7), i, (i % 4 * 30) as u16)
        } else {
            hit(&format!("src/u{}/g{}.rs", i % 4, i % 6), 100 - i)
        };
        m.exact = i % 5 == 0;
        m.file_lines = i * 10;
        m.mtime = (i as u64) * 100_000;
        ms.push(m);
    }
    let w = Workspace { now: 4_000_000, manifest_dirs: vec!["src".to_string()] };
    sort(&mut ms, "f3", "src", Some("src/d1/x.rs"), &w);
    let once = order(&ms);
    assert_eq!(once.len(), 40);
    sort(&mut ms, "f3", "src", Some("src/d1/x.rs"), &w);
    assert_eq!(order(&ms), once);
    let prepared = prepare(Some("src/d1/x.rs"), &w);
    for pair in ms.windows(2) {
        let a = score(&pair[0], "f3", "src", Some("src/d1/x.rs"), &prepared);
        let b = score(&pair[1], "f3", "src", Some("src/d1/x.rs"), &prepared);
        assert!(a >= b);
    }
}

#[test]
fn path_order_agrees_with_std() {
    let samples = [
        "", ".", "..", "/", "a", "a/b", "a-b", "a/b/c", "b", "/a", "/a/b", "./a", "../a", "a//b",
        "a/./b", "ab", "a b", "A", "é", "a/é",
    ];
    for x in samples {
        for y in samples {
            let ours = key_less(&path_sort_key(x), &path_sort_key(y));
            let std = std::path::Path::new(x) < std::path::Path::new(y);
            assert_eq!(ours, std, "{x:?} before {y:?}");
        }
    }
}

#[test]
fn test_matches_by_path_and_text() {
    assert!(is_test_match(&hit("src/walk_test.go", 1)));
    assert!(is_test_match(&hit("pkg/tests/a.rs", 1)));
    assert!(is_test_match(&hit("a/spec/b.rb", 1)));
    assert!(is_test_match(&hit("a/foo_spec.rb", 1)));
    assert!(!is_test_match(&hit("src/testing.rs", 1)));
    let mut m = hit("src/a.rs", 1);
    m.text = "    #[test]".to_string();
    assert!(is_test_match(&m));
    m.text = "describe('thing', () => {".to_string();
    assert!(is_test_match(&m));
    m.text = "func TestWalk(t *testing.T) {".to_string();
    assert!(is_test_match(&m));
    m.text = "let it = 1;".to_string();
    assert!(!is_test_match(&m));
}

#[test]
fn facets_partition_in_rank_order() {
    let mut imp = def("/repo/src/imp.rs", 5, 90);
    imp.impl_target = Some("Foo".to_string());
    let ms = vec![
        hit("/repo/src/use1.rs", 1),
        def("/repo/src/def.rs", 10, 100),
        hit("/other/use2.rs", 2),
        imp,
        hit("/repo/tests/t.rs", 3),
        hit("/repo/src/use3.rs", 4),
        def("/other/def2.rs", 20, 100),
    ];
    let dirs = vec!["/repo".to_string(), "/other".to_string()];
    let f = facet_matches(ms, &dirs);
    assert_eq!(
        order(&f.definitions),
        vec![("/repo/src/def.rs".to_string(), 10), ("/other/def2.rs".to_string(), 20)]
    );
    assert_eq!(order(&f.implementations), vec![("/repo/src/imp.rs".to_string(), 5)]);
    assert_eq!(order(&f.tests), vec![("/repo/tests/t.rs".to_string(), 3)]);
    assert_eq!(
        order(&f.usages_local),
        vec![("/repo/src/use1.rs".to_string(), 1), ("/repo/src/use3.rs".to_string(), 4)]
    );
    assert_eq!(order(&f.usages_cross), vec![("/other/use2.rs".to_string(), 2)]);
}

#[test]
fn facets_without_definition_have_no_local_usages() {
    let ms = vec![hit("/repo/a.rs", 1), hit("/repo/b.rs", 2)];
    let f = facet_matches(ms, &vec!["/repo".to_string()]);
    assert!(f.usages_local.is_empty());
    assert_eq!(f.usages_cross.len(), 2);
}
