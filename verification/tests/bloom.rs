use tilth::index::bloom::{
    build_filter, combined_hash, double_hash, extract_identifiers, hash_with_seed, BloomFilter,
    BloomFilterCache,
};

#[test]
fn test_basic_membership() {
    let mut bf = BloomFilter::new(100);
    bf.insert("foo");
    bf.insert("bar");
    bf.insert("baz");

    assert!(bf.contains("foo"));
    assert!(bf.contains("bar"));
    assert!(bf.contains("baz"));
}

#[test]
fn test_definitely_not_present() {
    let mut bf = BloomFilter::new(10);
    bf.insert("alpha");
    bf.insert("beta");
    bf.insert("gamma");

    let mut false_positives = 0;
    let test_items = [
        "delta", "epsilon", "zeta", "eta", "theta", "iota", "kappa", "lambda", "mu", "nu", "xi",
        "omicron", "pi", "rho", "sigma", "tau", "upsilon", "phi", "chi", "psi", "omega",
    ];
    for item in &test_items {
        if bf.contains(item) {
            false_positives += 1;
        }
    }
    assert!(
        false_positives <= 1,
        "too many false positives: {false_positives}/{}",
        test_items.len()
    );
}

#[test]
fn test_false_positive_rate() {
    let n = 500;
    let mut bf = BloomFilter::new(n);

    for i in 0..n {
        bf.insert(&format!("item_{i}"));
    }

    for i in 0..n {
        assert!(bf.contains(&format!("item_{i}")), "missing item_{i}");
    }

    let m = 10_000;
    let mut false_positives = 0;
    for i in 0..m {
        if bf.contains(&format!("notinserted_{i}")) {
            false_positives += 1;
        }
    }

    let fpr = false_positives as f64 / m as f64;
    assert!(
        fpr < 0.05,
        "false positive rate too high: {fpr:.4} ({false_positives}/{m})"
    );
}

#[test]
fn test_identifier_extraction() {
    let code = "fn foo(bar: Baz) { qux() }";
    let idents = extract_identifiers(code);
    assert_eq!(idents, vec!["fn", "foo", "bar", "Baz", "qux"]);
}

#[test]
fn test_identifier_extraction_skips_strings() {
    let code = r#"let x = "hello world"; let y = 42;"#;
    let idents = extract_identifiers(code);
    assert!(idents.contains(&"let".to_string()));
    assert!(idents.contains(&"x".to_string()));
    assert!(idents.contains(&"y".to_string()));
    assert!(!idents.contains(&"hello".to_string()));
    assert!(!idents.contains(&"world".to_string()));
}

#[test]
fn test_identifier_extraction_skips_comments() {
    let code = "fn real() // fn fake()\n/* fn also_fake() */\nfn another()";
    let idents = extract_identifiers(code);
    assert!(idents.contains(&"real".to_string()));
    assert!(idents.contains(&"another".to_string()));
    assert!(!idents.contains(&"fake".to_string()));
    assert!(!idents.contains(&"also_fake".to_string()));
}

#[test]
fn test_identifier_extraction_underscores_and_numbers() {
    let code = "_private __dunder var_123 _0 a1b2c3";
    let idents = extract_identifiers(code);
    assert_eq!(
        idents,
        vec!["_private", "__dunder", "var_123", "_0", "a1b2c3"]
    );
}

#[test]
fn test_identifier_extraction_empty() {
    let idents = extract_identifiers("");
    assert!(idents.is_empty());
}

#[test]
fn test_identifier_extraction_no_identifiers() {
    let idents = extract_identifiers("123 + 456 = 789");
    assert!(idents.is_empty());
}

#[test]
fn test_cache_mtime_invalidation() {
    let mut cache = BloomFilterCache::new();
    let path = "/tmp/test_bloom.rs";

    let old_content = "fn old_function() {}";
    let new_content = "fn new_function() {}";

    let mtime_old: u64 = 0;
    let mtime_new: u64 = 1;

    assert!(cache.contains(path, mtime_old, old_content, "old_function"));
    assert!(!cache.contains(path, mtime_old, old_content, "new_function"));

    // Same mtime: the cached filter answers, whatever the content passed.
    assert!(cache.contains(path, mtime_old, new_content, "old_function"));

    // Different mtime: rebuilt from the new content.
    assert!(cache.contains(path, mtime_new, new_content, "new_function"));
    assert!(!cache.contains(path, mtime_new, new_content, "old_function"));
}

#[test]
fn test_bloom_filter_sizing() {
    let bf = BloomFilter::new(100);
    assert!(bf.num_bits() >= 896, "too few bits: {}", bf.num_bits());
    assert!(bf.num_bits() <= 1088, "too many bits: {}", bf.num_bits());
    assert!(bf.num_hashes() >= 5, "too few hashes: {}", bf.num_hashes());
    assert!(bf.num_hashes() <= 10, "too many hashes: {}", bf.num_hashes());
}

#[test]
fn test_identifier_extraction_escaped_strings() {
    let code = r#"let s = "escaped \"quote\" inside"; let t = 1;"#;
    let idents = extract_identifiers(code);
    assert!(idents.contains(&"s".to_string()));
    assert!(idents.contains(&"t".to_string()));
    assert!(!idents.contains(&"quote".to_string()));
    assert!(!idents.contains(&"inside".to_string()));
}

#[test]
fn test_identifier_extraction_single_quotes() {
    let code = "let c = 'a'; let d = 'b';";
    let idents = extract_identifiers(code);
    assert!(idents.contains(&"let".to_string()));
    assert!(idents.contains(&"c".to_string()));
    assert!(idents.contains(&"d".to_string()));
}

#[test]
fn test_build_filter_integration() {
    let content = "pub fn search(query: &str) -> Vec<Match> { find(query) }";
    let filter = build_filter(content);

    assert!(filter.contains("search"));
    assert!(filter.contains("query"));
    assert!(filter.contains("Vec"));
    assert!(filter.contains("Match"));
    assert!(filter.contains("find"));
    assert!(!filter.contains("nonexistent_symbol_xyz"));
}

#[test]
fn bloom_sizing_exact_values() {
    // 100 items at one percent: ceil(958.5...) = 959 bits, 15 words, 960 bits;
    // ceil(9.59 * ln 2) = 7 probes.
    let bf = BloomFilter::new(100);
    assert_eq!(bf.num_bits(), 960);
    assert_eq!(bf.num_hashes(), 7);
    // One item: 10 bits raised to 64; ceil(64 * ln 2) = 45 probes, capped at 32.
    let one = BloomFilter::new(1);
    assert_eq!(one.num_bits(), 64);
    assert_eq!(one.num_hashes(), 32);
}

#[test]
fn bloom_with_dimensions_clamps() {
    let a = BloomFilter::with_dimensions(0, 0);
    assert_eq!(a.num_bits(), 64);
    assert_eq!(a.num_hashes(), 1);
    let b = BloomFilter::with_dimensions(65, 200);
    assert_eq!(b.num_bits(), 128);
    assert_eq!(b.num_hashes(), 32);
    let c = BloomFilter::with_dimensions(128, 7);
    assert_eq!(c.num_bits(), 128);
    assert_eq!(c.num_hashes(), 7);
}

#[test]
fn bloom_empty_filter_contains_nothing() {
    let bf = BloomFilter::new(50);
    assert!(!bf.contains("anything"));
    assert!(!bf.contains(""));
}

#[test]
fn bloom_insert_keeps_earlier_members() {
    let mut bf = BloomFilter::new(20);
    bf.insert("first");
    assert!(bf.contains("first"));
    for i in 0..200 {
        bf.insert(&format!("later_{i}"));
        assert!(bf.contains("first"));
    }
}

#[test]
fn bloom_hash_depends_on_seed_and_item() {
    let (h1, h2) = double_hash("walk");
    assert_eq!(h1, hash_with_seed("walk", 0));
    assert_ne!(h1, h2);
    assert_ne!(hash_with_seed("walk", 0), hash_with_seed("talk", 0));
    assert_eq!(combined_hash(10, 3, 4, 7), (10 + 4 * 3) % 7);
    assert_eq!(combined_hash(u64::MAX, 2, 1, 64), 1);
}

#[test]
fn bloom_cache_trusts_mtime() {
    let mut cache = BloomFilterCache::new();
    assert!(cache.contains("p", 5, "fn foo() {}", "foo"));
    // Content changed, mtime did not: the old filter answers for "bar".
    assert!(!cache.contains("p", 5, "fn bar() {}", "bar"));
    assert!(cache.contains("p", 6, "fn bar() {}", "bar"));
}

#[test]
fn identifiers_in_backticks_and_block_comments() {
    let idents = extract_identifiers("a `b c` d /* e */ f // g\nh \"i\\\\\" j");
    assert_eq!(idents, vec!["a", "d", "f", "h", "j"]);
    let slash = extract_identifiers("x / y /");
    assert_eq!(slash, vec!["x", "y"]);
}
