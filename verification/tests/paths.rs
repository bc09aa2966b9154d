use tilth::paths::{
    join, path_components, path_depth_below, path_extension, path_file_name, path_file_stem,
    path_is_under, path_parent,
};

fn s(v: Vec<char>) -> String {
    v.into_iter().collect()
}

fn comps(p: &str) -> Vec<String> {
    path_components(p).into_iter().map(s).collect()
}

fn std_comps(p: &str) -> Vec<String> {
    std::path::Path::new(p)
        .components()
        .map(|c| c.as_os_str().to_string_lossy().into_owned())
        .collect()
}

const SAMPLES: [&str; 24] = [
    "", ".", "..", "/", "//", "a", "a/", "a/b", "a//b", "a/./b", "./a/b", "/a/b", "/a/b/", "/./a",
    "a/b/.", "a/..", "../a", ".a", "a.", "a.b.c", ".a.b", "/.", "./", "src/search/mod.rs",
];

#[test]
fn components_agree_with_std() {
    for p in SAMPLES {
        assert_eq!(comps(p), std_comps(p), "components of {p:?}");
    }
}

#[test]
fn file_name_stem_extension_agree_with_std() {
    for p in SAMPLES {
        let path = std::path::Path::new(p);
        let name = path.file_name().map(|n| n.to_string_lossy().into_owned());
        let stem = path.file_stem().map(|n| n.to_string_lossy().into_owned());
        let ext = path.extension().map(|n| n.to_string_lossy().into_owned());
        assert_eq!(path_file_name(p).map(s), name, "file name of {p:?}");
        assert_eq!(path_file_stem(p).map(s), stem, "stem of {p:?}");
        assert_eq!(path_extension(p).map(s), ext, "extension of {p:?}");
    }
}

#[test]
fn parent_agrees_with_std() {
    for p in SAMPLES {
        let parent = std::path::Path::new(p).parent().map(|d| {
            d.components()
                .map(|c| c.as_os_str().to_string_lossy().into_owned())
                .collect::<Vec<String>>()
        });
        let ours = path_parent(p).map(|d| d.into_iter().map(s).collect::<Vec<String>>());
        assert_eq!(ours, parent, "parent of {p:?}");
    }
}

#[test]
fn prefix_and_depth_agree_with_std() {
    for p in SAMPLES {
        for base in SAMPLES {
            let path = std::path::Path::new(p);
            let under = path.starts_with(base);
            assert_eq!(path_is_under(p, base), under, "{p:?} under {base:?}");
            let depth = path.strip_prefix(base).unwrap_or(path).components().count();
            assert_eq!(path_depth_below(p, base), depth, "depth of {p:?} below {base:?}");
        }
    }
}

#[test]
fn extension_examples() {
    assert_eq!(path_extension("a/b/main.rs").map(s), Some("rs".to_string()));
    assert_eq!(path_extension("archive.tar.gz").map(s), Some("gz".to_string()));
    assert_eq!(path_extension(".env").map(s), None);
    assert_eq!(path_extension("Makefile").map(s), None);
    assert_eq!(path_extension("trailing.").map(s), Some(String::new()));
    assert_eq!(path_file_stem("walk_test.rs").map(s), Some("walk_test".to_string()));
}

#[test]
fn join_examples() {
    assert_eq!(join("src", "a.rs"), "src/a.rs");
    assert_eq!(join("src/", "a.rs"), "src/a.rs");
    assert_eq!(join("src", "/abs/a.rs"), "/abs/a.rs");
    assert_eq!(join("", "a.rs"), "a.rs");
    assert_eq!(join("src", ""), "src/");
    for base in SAMPLES {
        for rel in SAMPLES {
            let std_joined = std::path::Path::new(base).join(rel);
            assert_eq!(
                comps(&join(base, rel)),
                std_comps(&std_joined.to_string_lossy()),
                "join of {base:?} and {rel:?}"
            );
        }
    }
}
