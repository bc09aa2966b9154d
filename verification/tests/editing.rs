use tilth::edit::{
    apply_edits, hashline_content, hashline_section, line_hash, parse_anchor, Edit, EditResult,
};
use tilth::error::TilthError;

fn edit(start: usize, start_text: &str, end: usize, end_text: &str, content: &str) -> Edit {
    Edit {
        start_line: start,
        start_hash: line_hash(start_text),
        end_line: end,
        end_hash: line_hash(end_text),
        content: content.to_string(),
    }
}

fn applied(result: Result<EditResult, TilthError>) -> String {
    match result {
        Ok(EditResult::Applied { content, view }) => {
            assert_eq!(view, hashline_content(&content));
            content
        }
        Ok(EditResult::HashMismatch { view }) => panic!("mismatch: {view}"),
        Err(e) => panic!("error: {}", e.message()),
    }
}

#[test]
fn line_hash_is_fnv1a_low_twelve_bits() {
    assert_eq!(line_hash(""), 0xdc5);
    assert_eq!(line_hash("a"), 0x92c);
    assert_eq!(line_hash("foobar"), 0x968);
    assert_ne!(line_hash("x = 1"), line_hash("x = 2"));
    assert!(line_hash("any line at all") < 0x1000);
}

#[test]
fn anchors_parse() {
    assert_eq!(parse_anchor("42:a3f"), Some((42, 0xa3f)));
    assert_eq!(parse_anchor("1:000"), Some((1, 0)));
    assert_eq!(parse_anchor("7:FFF"), Some((7, 0xfff)));
    assert_eq!(parse_anchor("0:abc"), Some((0, 0xabc)));
    assert_eq!(parse_anchor("42:a3"), None);
    assert_eq!(parse_anchor("42:a3ff"), None);
    assert_eq!(parse_anchor("42:a3g"), None);
    assert_eq!(parse_anchor("42"), None);
    assert_eq!(parse_anchor(":a3f"), None);
    assert_eq!(parse_anchor("x:a3f"), None);
    assert_eq!(parse_anchor("4 2:a3f"), None);
    assert_eq!(parse_anchor(""), None);
}

#[test]
fn hashlines_show_number_hash_and_content() {
    assert_eq!(hashline_content("a\nfoobar"), "1:92c|a\n2:968|foobar");
    assert_eq!(hashline_content("a\n"), "1:92c|a\n2:dc5|");
    assert_eq!(hashline_content(""), "1:dc5|");
    assert_eq!(hashline_section("a\nfoobar\n", 41), "41:92c|a\n42:968|foobar");
    assert_eq!(hashline_section("", 3), "3:dc5|");
}

#[test]
fn edit_replaces_deletes_and_inserts() {
    let file = "one\ntwo\nthree\nfour\nfive\n";
    let edits = vec![edit(2, "two", 3, "three", "2\n2.5\n3")];
    assert_eq!(applied(apply_edits(file, &edits)), "one\n2\n2.5\n3\nfour\nfive\n");
    let edits = vec![edit(4, "four", 4, "four", "")];
    assert_eq!(applied(apply_edits(file, &edits)), "one\ntwo\nthree\nfive\n");
    let edits = vec![edit(1, "one", 5, "five", "all")];
    assert_eq!(applied(apply_edits(file, &edits)), "all\n");
    assert_eq!(applied(apply_edits(file, &Vec::new())), file);
}

#[test]
fn edits_apply_as_if_at_once() {
    let file = "a\nb\nc\nd\ne";
    let edits = vec![edit(4, "d", 5, "e", "D"), edit(1, "a", 1, "a", "A1\nA2"), edit(3, "c", 3, "c", "")];
    assert_eq!(applied(apply_edits(file, &edits)), "A1\nA2\nb\nD");
}

#[test]
fn overlapping_edits_are_rejected() {
    let file = "a\nb\nc\nd\n";
    let edits = vec![edit(1, "a", 2, "b", "x"), edit(2, "b", 3, "c", "y")];
    match apply_edits(file, &edits) {
        Err(TilthError::InvalidQuery { query, reason }) => {
            assert_eq!(query, "edits");
            assert_eq!(reason, "edits overlap");
        }
        _ => panic!("expected an error"),
    }
    let twice = vec![edit(2, "b", 2, "b", "x"), edit(2, "b", 2, "b", "y")];
    assert!(apply_edits(file, &twice).is_err());
}

#[test]
fn stale_anchor_changes_nothing() {
    let file = "a\nb\nc\n";
    let good = edit(1, "a", 1, "a", "A");
    let stale = edit(2, "was b", 2, "was b", "B");
    match apply_edits(file, &vec![good, stale]) {
        Ok(EditResult::HashMismatch { view }) => assert_eq!(view, hashline_content(file)),
        _ => panic!("expected a mismatch"),
    }
    for (start, end) in [(0, 1), (3, 2), (2, 9), (9, 9)] {
        let mut e = edit(1, "a", 1, "a", "A");
        e.start_line = start;
        e.end_line = end;
        assert!(matches!(apply_edits(file, &vec![e]), Ok(EditResult::HashMismatch { .. })));
    }
}

#[test]
fn edit_twice_with_the_old_anchor_is_a_mismatch() {
    let mut file = String::new();
    for i in 1..=50 {
        file.push_str(&format!("line {i}\n"));
    }
    let anchor = format!("42:{:03x}", line_hash("line 42"));
    let (line, hash) = parse_anchor(&anchor).unwrap();
    let make = || Edit {
        start_line: line,
        start_hash: hash,
        end_line: line,
        end_hash: hash,
        content: "x = 1".to_string(),
    };
    let after = applied(apply_edits(&file, &vec![make()]));
    assert_eq!(after.lines().nth(41), Some("x = 1"));
    assert_eq!(after.lines().count(), 50);
    match apply_edits(&after, &vec![make()]) {
        Ok(EditResult::HashMismatch { view }) => {
            assert_eq!(view, hashline_content(&after));
            assert!(view.contains(&format!("42:{:03x}|x = 1", line_hash("x = 1"))));
        }
        _ => panic!("expected a mismatch"),
    }
}

#[test]
fn identity_edit_round_trips() {
    for file in ["a\nb\nc\n", "a\r\nb\r\n", "only", "x\n\ny", "tabs\tand → arrows\n"] {
        let view = hashline_content(file);
        for row in view.lines() {
            let (anchor, text) = row.split_once('|').unwrap();
            if text.is_empty() {
                continue;
            }
            let (line, hash) = parse_anchor(anchor).unwrap();
            let same = Edit {
                start_line: line,
                start_hash: hash,
                end_line: line,
                end_hash: hash,
                content: file.split('\n').nth(line - 1).unwrap().to_string(),
            };
            assert_eq!(applied(apply_edits(file, &vec![same])), file);
        }
    }
}

#[test]
fn identity_edit_of_a_range_round_trips() {
    let file = "fn a() {\n\n    b();\n}\n\nfn c() {}\n";
    let lines: Vec<&str> = file.split('\n').collect();
    let anchors: Vec<(usize, u16)> = hashline_content(file)
        .split('\n')
        .map(|row| parse_anchor(row.split_once('|').unwrap().0).unwrap())
        .collect();
    assert_eq!(anchors.len(), lines.len());
    for from in 0..lines.len() {
        for to in from..lines.len() {
            let content = lines[from..=to].join("\n");
            if content.is_empty() {
                continue;
            }
            let same = Edit {
                start_line: anchors[from].0,
                start_hash: anchors[from].1,
                end_line: anchors[to].0,
                end_hash: anchors[to].1,
                content,
            };
            assert_eq!(applied(apply_edits(file, &vec![same])), file);
        }
    }
}
