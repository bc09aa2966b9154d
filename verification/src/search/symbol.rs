//! Symbol search in one file: the definitions whose name holds the query,
//! and the lines that use the query as an identifier.

use vstd::prelude::*;

use crate::bytes::{byte_texts, lossy_text, split_byte_lines, text_lossy};
use crate::index::bloom::{ident_continue, is_ident_continue};
use crate::index::symbol::line_of;
use crate::search::treesitter::{
    definition_kind, definition_name, definition_weight, extract_definition_name,
    extract_impl_trait, extract_impl_type, field_text, is_definition_kind, weight_of,
};
use crate::syntax::SyntaxNode;
use crate::text::{
    ascii_lower, contains_sub, find_from, lines, lower_chars, occurs_at, split_lines, starts_with,
    string_of, texts, to_chars, trim, trim_chars, truncate_chars, truncated,
};
use crate::types::{match_views, Match, MatchView};

verus! {

/// The most bytes of a matched line that a match carries.
pub const MAX_TEXT_BYTES: usize = 200;

/// The deepest level of a tree that is searched for definitions.
pub const MAX_SEARCH_DEPTH: usize = 3;

/// What is known of the file that is searched.
pub struct FileInfo {
    pub path: String,
    /// The estimated number of lines of the file.
    pub file_lines: u32,
    /// Modification time, in seconds since the Unix epoch.
    pub mtime: u64,
}

/// Whether `name` holds `query`, letter case aside.
pub open spec fn name_matches(name: Seq<char>, query: Seq<char>) -> bool {
    contains_sub(ascii_lower(name), ascii_lower(query))
}

/// Whether `name` holds `query`, letter case aside.
pub fn is_name_match(name: &str, query: &str) -> (b: bool)
    ensures
        b == name_matches(name@, query@),
{
    let n = lower_chars(&to_chars(name));
    let q = lower_chars(&to_chars(query));
    find_from(&n, &q, 0).is_some()
}

/// The text that a match carries of a line: the line, trimmed, and cut to
/// 200 bytes at a character boundary.
pub open spec fn shown_text(line: Seq<char>) -> Seq<char> {
    truncated(trim(line), MAX_TEXT_BYTES as nat)
}

/// The text that a match carries for a line.
pub fn text_of_line(line: &Vec<char>) -> (s: String)
    ensures
        s@ == shown_text(line@),
{
    let trimmed = trim_chars(line);
    string_of(&truncate_chars(&trimmed, MAX_TEXT_BYTES))
}

/// The line in which a node begins, as text; empty if there is no such line.
pub open spec fn line_text(node: SyntaxNode, lines: Seq<Seq<u8>>) -> Seq<char> {
    if node.start_row < lines.len() {
        lossy_text(lines[node.start_row as int])
    } else {
        Seq::empty()
    }
}

/// The match for a definition: at the line where its node begins, with the
/// range of the node, the weight of its kind, and the name it defines.
pub open spec fn definition_match(
    node: SyntaxNode,
    lines: Seq<Seq<u8>>,
    file: FileInfo,
    query: Seq<char>,
    name: Seq<char>,
    target: Option<Seq<char>>,
) -> MatchView {
    MatchView {
        path: file.path@,
        line: line_of(node.start_row),
        text: shown_text(line_text(node, lines)),
        is_definition: true,
        def_range: Some((line_of(node.start_row), line_of(node.end_row))),
        def_name: Some(name),
        def_weight: weight_of(node.kind@),
        impl_target: target,
        exact: name == query,
        file_lines: file.file_lines,
        mtime: file.mtime,
    }
}

/// The matches that a node gives by itself: for a definition whose name holds
/// the query, the definition; for an implementation of a trait whose name
/// holds the query, the implementation with the type it is for.
pub open spec fn own_matches(node: SyntaxNode, lines: Seq<Seq<u8>>, file: FileInfo, query: Seq<char>) -> Seq<
    MatchView,
> {
    if !definition_kind(node.kind@) {
        Seq::empty()
    } else {
        (match definition_name(node, lines) {
            Some(n) => if name_matches(n, query) {
                seq![definition_match(node, lines, file, query, n, None)]
            } else {
                Seq::empty()
            },
            None => Seq::empty(),
        }) + (if node.kind@ == "impl_item"@ {
            match field_text(node, lines, "trait"@) {
                Some(t) => if name_matches(t, query) {
                    seq![
                        definition_match(
                            node,
                            lines,
                            file,
                            query,
                            t,
                            field_text(node, lines, "type"@),
                        ),
                    ]
                } else {
                    Seq::empty()
                },
                None => Seq::empty(),
            }
        } else {
            Seq::empty()
        })
    }
}

/// The definitions found at a node at `depth` and below it, down to depth
/// three, in the order of the text.
pub open spec fn found_definitions(
    node: SyntaxNode,
    lines: Seq<Seq<u8>>,
    file: FileInfo,
    query: Seq<char>,
    depth: int,
) -> Seq<MatchView>
    decreases node, node.children@.len() + 1,
{
    if depth > MAX_SEARCH_DEPTH {
        Seq::empty()
    } else {
        own_matches(node, lines, file, query) + found_below(
            node,
            lines,
            file,
            query,
            depth,
            node.children@.len() as int,
        )
    }
}

/// The definitions found at the first `n` children of a node at `depth`.
pub open spec fn found_below(
    node: SyntaxNode,
    lines: Seq<Seq<u8>>,
    file: FileInfo,
    query: Seq<char>,
    depth: int,
    n: int,
) -> Seq<MatchView>
    decreases node, n,
{
    if n <= 0 || n > node.children@.len() {
        Seq::empty()
    } else {
        found_below(node, lines, file, query, depth, n - 1) + found_definitions(
            node.children@[n - 1],
            lines,
            file,
            query,
            depth + 1,
        )
    }
}

fn line_number(row: usize) -> (line: u32)
    ensures
        line == line_of(row),
{
    if row >= u32::MAX as usize {
        u32::MAX
    } else {
        (row + 1) as u32
    }
}

fn make_definition(
    node: &SyntaxNode,
    lines: &Vec<Vec<u8>>,
    file: &FileInfo,
    query: &str,
    name: String,
    target: Option<String>,
) -> (m: Match)
    ensures
        m@ == definition_match(
            *node,
            byte_texts(lines@),
            *file,
            query@,
            name@,
            crate::types::opt_string_view(target),
        ),
{
    let line = if node.start_row < lines.len() {
        text_lossy(lines[node.start_row].as_slice())
    } else {
        String::new()
    };
    let text = text_of_line(&to_chars(line.as_str()));
    let exact = crate::text::str_eq(name.as_str(), query);
    Match {
        path: file.path.clone(),
        line: line_number(node.start_row),
        text,
        is_definition: true,
        def_range: Some((line_number(node.start_row), line_number(node.end_row))),
        def_name: Some(name),
        def_weight: definition_weight(node.kind.as_str()),
        impl_target: target,
        exact,
        file_lines: file.file_lines,
        mtime: file.mtime,
    }
}

fn push_own_matches(
    node: &SyntaxNode,
    lines: &Vec<Vec<u8>>,
    file: &FileInfo,
    query: &str,
    out: &mut Vec<Match>,
)
    ensures
        match_views(final(out)@) == match_views(old(out)@) + own_matches(
            *node,
            byte_texts(lines@),
            *file,
            query@,
        ),
{
    let ghost start = match_views(out@);
    let ghost ls = byte_texts(lines@);
    if !is_definition_kind(node.kind.as_str()) {
        assert(start + own_matches(*node, ls, *file, query@) =~= start);
        return ;
    }
    match extract_definition_name(node, lines) {
        Some(name) => {
            if is_name_match(name.as_str(), query) {
                let m = make_definition(node, lines, file, query, name, None);
                out.push(m);
                assert(match_views(out@) =~= start.push(m@));
            }
        },
        None => {},
    }
    let ghost first = match_views(out@);
    if crate::text::str_eq(node.kind.as_str(), "impl_item") {
        match extract_impl_trait(node, lines) {
            Some(t) => {
                if is_name_match(t.as_str(), query) {
                    let target = extract_impl_type(node, lines);
                    let m = make_definition(node, lines, file, query, t, target);
                    out.push(m);
                    assert(match_views(out@) =~= first.push(m@));
                }
            },
            None => {},
        }
    }
    assert(match_views(out@) =~= start + own_matches(*node, ls, *file, query@));
}

/// Collects the definitions whose name holds the query, at a node and below
/// it, down to depth three.
pub fn walk_for_definitions(
    node: &SyntaxNode,
    lines: &Vec<Vec<u8>>,
    file: &FileInfo,
    query: &str,
    depth: usize,
    out: &mut Vec<Match>,
)
    ensures
        match_views(final(out)@) == match_views(old(out)@) + found_definitions(
            *node,
            byte_texts(lines@),
            *file,
            query@,
            depth as int,
        ),
    decreases node,
{
    let ghost start = match_views(out@);
    let ghost ls = byte_texts(lines@);
    if depth > MAX_SEARCH_DEPTH {
        assert(start + found_definitions(*node, ls, *file, query@, depth as int) =~= start);
        return ;
    }
    push_own_matches(node, lines, file, query, out);
    let ghost own = match_views(out@);
    let mut i: usize = 0;
    assert(own + found_below(*node, ls, *file, query@, depth as int, 0) =~= own);
    while i < node.children.len()
        invariant
            i <= node.children@.len(),
            depth <= MAX_SEARCH_DEPTH,
            ls == byte_texts(lines@),
            match_views(out@) == own + found_below(*node, ls, *file, query@, depth as int, i as int),
        decreases node.children@.len() - i,
    {
        walk_for_definitions(&node.children[i], lines, file, query, depth + 1, out);
        i += 1;
        assert(match_views(out@) =~= own + found_below(
            *node,
            ls,
            *file,
            query@,
            depth as int,
            i as int,
        ));
    }
    assert(match_views(out@) =~= start + found_definitions(*node, ls, *file, query@, depth as int));
}

/// The definitions in a parsed file whose name holds the query.
pub fn find_definitions(root: &SyntaxNode, content: &str, file: &FileInfo, query: &str) -> (found:
    Vec<Match>)
    ensures
        match_views(found@) == found_definitions(
            *root,
            crate::bytes::byte_lines(vstd::utf8::encode_utf8(content@)),
            *file,
            query@,
            0,
        ),
{
    let lines = split_byte_lines(content.as_bytes());
    let mut found: Vec<Match> = Vec::new();
    assert(match_views(found@) =~= Seq::<MatchView>::empty());
    walk_for_definitions(root, &lines, file, query, 0, &mut found);
    assert(Seq::<MatchView>::empty() + found_definitions(
        *root,
        byte_texts(lines@),
        *file,
        query@,
        0,
    ) =~= found_definitions(*root, byte_texts(lines@), *file, query@, 0));
    found
}

// ---------------------------------------------------------------------------
// Usages
// ---------------------------------------------------------------------------

/// Whether a trimmed line is a comment.
pub open spec fn comment_line(t: Seq<char>) -> bool {
    "//"@.is_prefix_of(t) || "#"@.is_prefix_of(t) || "/*"@.is_prefix_of(t) || "*"@.is_prefix_of(t)
}

/// Whether `query` stands in `line` at `at` as a whole identifier: what is in
/// front of it and behind it is no identifier character.
pub open spec fn identifier_at(line: Seq<char>, query: Seq<char>, at: int) -> bool {
    occurs_at(line, query, at) && (at == 0 || !ident_continue(line[at - 1])) && (at + query.len()
        == line.len() || !ident_continue(line[at + query.len()]))
}

/// Whether a line names the word: the word is not empty and stands in the
/// line as a whole identifier.
pub open spec fn names(line: Seq<char>, word: Seq<char>) -> bool {
    word.len() > 0 && exists|at: int| identifier_at(line, word, at)
}

/// Whether a line uses the query: the line is no comment and names it.
pub open spec fn uses(line: Seq<char>, query: Seq<char>) -> bool {
    !comment_line(trim(line)) && names(line, query)
}

/// The match for a usage in line `n`, counted from one.
pub open spec fn usage_match(line: Seq<char>, n: int, file: FileInfo) -> MatchView {
    MatchView {
        path: file.path@,
        line: n as u32,
        text: shown_text(line),
        is_definition: false,
        def_range: None,
        def_name: None,
        def_weight: 0,
        impl_target: None,
        exact: false,
        file_lines: file.file_lines,
        mtime: file.mtime,
    }
}

/// The usages among the first `n` lines, as far as a `u32` can number them.
pub open spec fn usages_upto(ls: Seq<Seq<char>>, query: Seq<char>, file: FileInfo, n: int) -> Seq<
    MatchView,
>
    decreases n,
{
    if n <= 0 {
        Seq::empty()
    } else if n <= u32::MAX && uses(ls[n - 1], query) {
        usages_upto(ls, query, file, n - 1).push(usage_match(ls[n - 1], n, file))
    } else {
        usages_upto(ls, query, file, n - 1)
    }
}

fn is_comment_line(trimmed: &Vec<char>) -> (b: bool)
    ensures
        b == comment_line(trimmed@),
{
    starts_with(trimmed, "//") || starts_with(trimmed, "#") || starts_with(trimmed, "/*")
        || starts_with(trimmed, "*")
}

/// Whether a line names the word as a whole identifier.
pub fn line_names(line: &Vec<char>, word: &Vec<char>) -> (b: bool)
    ensures
        b == names(line@, word@),
{
    if word.len() == 0 {
        return false;
    }
    let mut from: usize = 0;
    loop
        invariant
            word@.len() > 0,
            forall|k: int| 0 <= k < from ==> !identifier_at(line@, word@, k),
        decreases line@.len() + 1 - from,
    {
        match find_from(line, word, from) {
            None => {
                return false;
            },
            Some(at) => {
                let len = line.len();
                let width = word.len();
                assert(occurs_at(line@, word@, at as int));
                assert(at + width <= len);
                let before = at == 0 || !is_ident_continue(line[at - 1]);
                let after = at + width == len || !is_ident_continue(line[at + width]);
                if before && after {
                    assert(identifier_at(line@, word@, at as int));
                    return true;
                }
                assert(at < line@.len());
                from = at + 1;
            },
        }
    }
}

/// Whether a line uses the query: it is no comment and names the query as a
/// whole identifier.
pub fn line_uses(line: &Vec<char>, query: &Vec<char>) -> (b: bool)
    ensures
        b == uses(line@, query@),
{
    !is_comment_line(&trim_chars(line)) && line_names(line, query)
}

/// The lines of a file that use the query as a whole identifier, comments
/// aside: one match per line.
pub fn find_usages(content: &str, file: &FileInfo, query: &str) -> (found: Vec<Match>)
    ensures
        match_views(found@) == usages_upto(
            lines(content@),
            query@,
            *file,
            lines(content@).len() as int,
        ),
{
    let chars = to_chars(content);
    let ls = split_lines(&chars);
    let q = to_chars(query);
    let ghost all = lines(content@);
    let mut found: Vec<Match> = Vec::new();
    let mut i: usize = 0;
    assert(match_views(found@) =~= usages_upto(all, query@, *file, 0));
    while i < ls.len()
        invariant
            i <= ls@.len(),
            all == texts(ls@),
            q@ == query@,
            match_views(found@) == usages_upto(all, query@, *file, i as int),
        decreases ls@.len() - i,
    {
        let ghost before = match_views(found@);
        if i < u32::MAX as usize && line_uses(&ls[i], &q) {
            let m = Match {
                path: file.path.clone(),
                line: (i + 1) as u32,
                text: text_of_line(&ls[i]),
                is_definition: false,
                def_range: None,
                def_name: None,
                def_weight: 0,
                impl_target: None,
                exact: false,
                file_lines: file.file_lines,
                mtime: file.mtime,
            };
            found.push(m);
            assert(match_views(found@) =~= before.push(usage_match(all[i as int], i + 1, *file)));
        }
        i += 1;
    }
    found
}

} // verus!
