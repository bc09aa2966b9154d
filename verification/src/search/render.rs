//! Rendering of search results: one entry per match, with the source of the
//! top matches inlined and footers that name what a definition calls and
//! refers to.

use std::collections::HashSet;
use vstd::prelude::*;

use crate::paths::{components, is_same_path, same_path};
use crate::read::detect::{detect_file_type, file_type_of};
use crate::search::context::{outline_context, outline_context_for_match};
use crate::search::expand::{code_block, expand_match, filter_code_lines, filtered_code};
use crate::search::siblings::{
    find_parent_entry, first_parent, resolve_siblings, resolved_siblings, ResolvedSibling,
};
use crate::search::strip::{noise_lines, strip_noise};
use crate::search::truncate::{diverse_lines, select_diverse_lines};
use crate::session::Session;
use crate::text::{decimal, join, join_strings, push_decimal, push_str, str_eq, string_views};
use crate::format::{search_header, search_header_text};
use crate::search::facets::{facet_matches, in_facet, primary_package, Facet};
use crate::search::package::parsed_dirs;
use crate::types::{FileType, Match, OutlineEntry, SearchResult};

verus! {

/// A definition that an expanded definition calls.
pub struct Callee {
    pub name: String,
    pub file: String,
    pub start_line: u32,
    pub end_line: u32,
    pub signature: Option<String>,
}

/// A callee of the expanded definition, with what the callee calls in turn.
pub struct CalleeNode {
    pub callee: Callee,
    pub children: Vec<Callee>,
}

/// What was read and parsed to expand one match.
pub struct Expansion {
    /// The content of the file.
    pub content: String,
    /// The definitions that the match calls, resolved, to a depth of two.
    pub callees: Vec<CalleeNode>,
    /// The outline entries of the file.
    pub outline: Vec<OutlineEntry>,
    /// The member names that the definition refers to on its own object.
    pub sibling_refs: Vec<String>,
    /// The files beside the file that it imports and mentions.
    pub related: Vec<String>,
}

/// What is known from disk about the file of one match.
pub struct MatchSource {
    pub path: String,
    pub line: u32,
    /// The size of the file, if its metadata could be read.
    pub byte_len: Option<u64>,
    /// The outline of the file, if it has one.
    pub outline: Option<String>,
    /// The material for an expansion, if the file could be read.
    pub expansion: Option<Expansion>,
}

/// The most callees that a footer lists.
pub const MAX_CALLEES: usize = 8;

/// Matches in files of fewer estimated lines get no outline context.
pub const CONTEXT_MIN_LINES: u32 = 50;

// ---------------------------------------------------------------------------
// Sources
// ---------------------------------------------------------------------------

/// Whether a source belongs to a match: same path, same line.
pub open spec fn is_source_of(s: MatchSource, m: Match) -> bool {
    s.line == m.line && is_same_path(s.path@, m.path@)
}

/// The index of the first source that belongs to `m`, or the number of
/// sources if there is none.
pub open spec fn first_source(sources: Seq<MatchSource>, m: Match) -> int
    decreases sources.len(),
{
    if sources.len() == 0 || is_source_of(sources[0], m) {
        0
    } else {
        1 + first_source(sources.drop_first(), m)
    }
}

/// The source that belongs to `m`: the first with its path and line.
pub open spec fn source_of(sources: Seq<MatchSource>, m: Match) -> Option<MatchSource> {
    let k = first_source(sources, m);
    if 0 <= k < sources.len() {
        Some(sources[k])
    } else {
        None
    }
}

/// Finds the source that belongs to `m`.
pub fn find_source<'a>(sources: &'a Vec<MatchSource>, m: &Match) -> (r: Option<&'a MatchSource>)
    ensures
        match r {
            Some(s) => source_of(sources@, *m) == Some(*s),
            None => source_of(sources@, *m).is_none(),
        },
{
    let mut i: usize = 0;
    assert(sources@.skip(0) =~= sources@);
    while i < sources.len()
        invariant
            i <= sources.len(),
            first_source(sources@, *m) == i + first_source(sources@.skip(i as int), *m),
        decreases sources.len() - i,
    {
        assert(sources@.skip(i as int)[0] == sources@[i as int]);
        if sources[i].line == m.line && same_path(sources[i].path.as_str(), m.path.as_str()) {
            return Some(&sources[i]);
        }
        assert(sources@.skip(i as int).drop_first() =~= sources@.skip(i + 1));
        i += 1;
    }
    assert(sources@.skip(sources@.len() as int).len() == 0);
    None
}

// ---------------------------------------------------------------------------
// The entry of one match
// ---------------------------------------------------------------------------

/// The word for the kind of a match.
pub open spec fn kind_word(m: Match) -> Seq<char> {
    if m.impl_target.is_some() {
        "impl"@
    } else if m.is_definition {
        "definition"@
    } else {
        "usage"@
    }
}

/// Where a match is: its range for a definition that has one, else its line.
pub open spec fn place_text(m: Match) -> Seq<char> {
    if m.is_definition && m.def_range.is_some() {
        decimal(m.def_range.unwrap().0 as nat) + "-"@ + decimal(m.def_range.unwrap().1 as nat)
    } else {
        decimal(m.line as nat)
    }
}

/// The heading of a match: `## path:place [kind]`, after an empty line.
pub open spec fn heading_text(m: Match) -> Seq<char> {
    "\n\n## "@ + m.path@ + ":"@ + place_text(m) + " ["@ + kind_word(m) + "]"@
}

/// The matched line itself, behind an arrow and its number.
pub open spec fn arrow_text(m: Match) -> Seq<char> {
    "\n→ ["@ + decimal(m.line as nat) + "]   "@ + m.text@
}

/// What follows the heading: the outline context of the match where the file
/// is large enough and has one, else the matched line.
pub open spec fn locator_text(m: Match, source: Option<MatchSource>) -> Seq<char> {
    if m.file_lines < CONTEXT_MIN_LINES {
        arrow_text(m)
    } else {
        match source {
            Some(s) => match s.outline {
                Some(o) => match outline_context(m.path@, m.line, s.byte_len, o@) {
                    Some(c) => c,
                    None => arrow_text(m),
                },
                None => arrow_text(m),
            },
            None => arrow_text(m),
        }
    }
}

fn push_place(out: &mut String, m: &Match)
    ensures
        final(out)@ == old(out)@ + place_text(*m),
{
    match m.def_range {
        Some((start, end)) => {
            if m.is_definition {
                push_decimal(out, start as u64);
                push_str(out, "-");
                push_decimal(out, end as u64);
                assert(out@ =~= old(out)@ + place_text(*m));
            } else {
                push_decimal(out, m.line as u64);
            }
        },
        None => {
            push_decimal(out, m.line as u64);
        },
    }
}

fn push_heading(out: &mut String, m: &Match)
    ensures
        final(out)@ == old(out)@ + heading_text(*m),
{
    let kind = if m.impl_target.is_some() {
        "impl"
    } else if m.is_definition {
        "definition"
    } else {
        "usage"
    };
    push_str(out, "\n\n## ");
    push_str(out, m.path.as_str());
    push_str(out, ":");
    push_place(out, m);
    push_str(out, " [");
    push_str(out, kind);
    push_str(out, "]");
    assert(out@ =~= old(out)@ + heading_text(*m));
}

fn push_arrow(out: &mut String, m: &Match)
    ensures
        final(out)@ == old(out)@ + arrow_text(*m),
{
    push_str(out, "\n→ [");
    push_decimal(out, m.line as u64);
    push_str(out, "]   ");
    push_str(out, m.text.as_str());
    assert(out@ =~= old(out)@ + arrow_text(*m));
}

fn push_locator(out: &mut String, m: &Match, source: Option<&MatchSource>)
    ensures
        final(out)@ == old(out)@ + locator_text(
            *m,
            match source {
                Some(s) => Some(*s),
                None => None,
            },
        ),
{
    if m.file_lines >= CONTEXT_MIN_LINES {
        match source {
            Some(s) => match &s.outline {
                Some(o) => match outline_context_for_match(
                    m.path.as_str(),
                    m.line,
                    s.byte_len,
                    o.as_str(),
                ) {
                    Some(c) => {
                        push_str(out, c.as_str());
                        return ;
                    },
                    None => {},
                },
                None => {},
            },
            None => {},
        }
    }
    push_arrow(out, m);
}

// ---------------------------------------------------------------------------
// Footers
// ---------------------------------------------------------------------------

/// One callee: name, place and, if known, signature.
pub open spec fn callee_text(c: Callee) -> Seq<char> {
    c.name@ + "  "@ + c.file@ + ":"@ + decimal(c.start_line as nat) + "-"@ + decimal(
        c.end_line as nat,
    ) + (match c.signature {
        Some(s) => "  "@ + s@,
        None => Seq::empty(),
    })
}

/// The first `n` second-level callees, each on a line behind an arrow.
pub open spec fn children_text(children: Seq<Callee>, n: int) -> Seq<char>
    decreases n,
{
    if n <= 0 {
        Seq::empty()
    } else {
        children_text(children, n - 1) + "\n    \u{2192} "@ + callee_text(children[n - 1])
    }
}

/// The first `n` callees with their own callees below them.
pub open spec fn nodes_text(nodes: Seq<CalleeNode>, n: int) -> Seq<char>
    decreases n,
{
    if n <= 0 {
        Seq::empty()
    } else {
        nodes_text(nodes, n - 1) + "\n  "@ + callee_text(nodes[n - 1].callee) + children_text(
            nodes[n - 1].children@,
            nodes[n - 1].children@.len() as int,
        )
    }
}

/// The callees without those named `name`: a definition that calls itself is
/// not listed among its callees.
pub open spec fn without_self(nodes: Seq<CalleeNode>, name: Option<Seq<char>>) -> Seq<CalleeNode>
    decreases nodes.len(),
{
    if nodes.len() == 0 {
        Seq::empty()
    } else if name.is_some() && nodes.last().callee.name@ == name.unwrap() {
        without_self(nodes.drop_last(), name)
    } else {
        without_self(nodes.drop_last(), name).push(nodes.last())
    }
}

/// The callees that lie in the file `path` (`same == true`) or outside of it,
/// in their order.
pub open spec fn in_file(nodes: Seq<CalleeNode>, path: Seq<char>, same: bool) -> Seq<CalleeNode>
    decreases nodes.len(),
{
    if nodes.len() == 0 {
        Seq::empty()
    } else if is_same_path(nodes.last().callee.file@, path) == same {
        in_file(nodes.drop_last(), path, same).push(nodes.last())
    } else {
        in_file(nodes.drop_last(), path, same)
    }
}

/// The callees that are listed: all of them if there are at most eight, else
/// the first eight once those in other files are put first.
pub open spec fn listed_callees(nodes: Seq<CalleeNode>, path: Seq<char>) -> Seq<CalleeNode> {
    if nodes.len() > MAX_CALLEES {
        (in_file(nodes, path, false) + in_file(nodes, path, true)).take(MAX_CALLEES as int)
    } else {
        nodes
    }
}

/// The footer that names what a definition calls; nothing if it calls
/// nothing that could be resolved.
pub open spec fn calls_footer(m: Match, callees: Seq<CalleeNode>) -> Seq<char> {
    let name = match m.def_name {
        Some(n) => Some(n@),
        None => None,
    };
    let nodes = listed_callees(without_self(callees, name), m.path@);
    if nodes.len() == 0 {
        Seq::empty()
    } else {
        "\n\n\u{2500}\u{2500} calls \u{2500}\u{2500}"@ + nodes_text(nodes, nodes.len() as int)
    }
}

fn push_callee(out: &mut String, c: &Callee)
    ensures
        final(out)@ == old(out)@ + callee_text(*c),
{
    push_str(out, c.name.as_str());
    push_str(out, "  ");
    push_str(out, c.file.as_str());
    push_str(out, ":");
    push_decimal(out, c.start_line as u64);
    push_str(out, "-");
    push_decimal(out, c.end_line as u64);
    match &c.signature {
        Some(s) => {
            push_str(out, "  ");
            push_str(out, s.as_str());
            assert(out@ =~= old(out)@ + callee_text(*c));
        },
        None => {
            assert(out@ =~= old(out)@ + callee_text(*c));
        },
    }
}

/// The nodes of `all` at the positions `picked`, in that order.
pub open spec fn picked_nodes(all: Seq<CalleeNode>, picked: Seq<usize>) -> Seq<CalleeNode> {
    Seq::new(picked.len(), |i: int| all[picked[i] as int])
}

/// The positions of the callees that are not named like the definition.
fn pick_without_self(callees: &Vec<CalleeNode>, def_name: &Option<String>) -> (kept: Vec<usize>)
    ensures
        forall|i: int| 0 <= i < kept@.len() ==> kept@[i] < callees@.len(),
        picked_nodes(callees@, kept@) == without_self(
            callees@,
            match def_name {
                Some(n) => Some(n@),
                None => None,
            },
        ),
{
    let ghost name = match def_name {
        Some(n) => Some(n@),
        None => None,
    };
    let mut kept: Vec<usize> = Vec::new();
    let mut i: usize = 0;
    assert(callees@.take(0) =~= Seq::<CalleeNode>::empty());
    assert(picked_nodes(callees@, kept@) =~= Seq::<CalleeNode>::empty());
    while i < callees.len()
        invariant
            i <= callees.len(),
            name == (match def_name {
                Some(n) => Some(n@),
                None => None,
            }),
            forall|j: int| 0 <= j < kept@.len() ==> kept@[j] < i,
            picked_nodes(callees@, kept@) == without_self(callees@.take(i as int), name),
        decreases callees.len() - i,
    {
        let ghost before = picked_nodes(callees@, kept@);
        proof {
            assert(callees@.take(i + 1).drop_last() =~= callees@.take(i as int));
            assert(callees@.take(i + 1).last() == callees@[i as int]);
        }
        let is_self = match def_name {
            Some(n) => str_eq(callees[i].callee.name.as_str(), n.as_str()),
            None => false,
        };
        if !is_self {
            kept.push(i);
            assert(picked_nodes(callees@, kept@) =~= before.push(callees@[i as int]));
        }
        i += 1;
    }
    assert(callees@.take(callees@.len() as int) =~= callees@);
    kept
}

/// Of the positions `kept`, those whose callee lies in the file `path`
/// (`same == true`) or outside of it, appended to `listed`.
fn pick_in_file(
    callees: &Vec<CalleeNode>,
    kept: &Vec<usize>,
    path: &str,
    same: bool,
    listed: &mut Vec<usize>,
)
    requires
        forall|i: int| 0 <= i < kept@.len() ==> kept@[i] < callees@.len(),
        forall|i: int| 0 <= i < old(listed)@.len() ==> old(listed)@[i] < callees@.len(),
    ensures
        forall|i: int| 0 <= i < final(listed)@.len() ==> final(listed)@[i] < callees@.len(),
        picked_nodes(callees@, final(listed)@) == picked_nodes(callees@, old(listed)@) + in_file(
            picked_nodes(callees@, kept@),
            path@,
            same,
        ),
{
    let ghost nodes = picked_nodes(callees@, kept@);
    let ghost start = picked_nodes(callees@, listed@);
    let mut i: usize = 0;
    assert(nodes.take(0) =~= Seq::<CalleeNode>::empty());
    assert(start + in_file(nodes.take(0), path@, same) =~= start);
    while i < kept.len()
        invariant
            i <= kept.len(),
            nodes == picked_nodes(callees@, kept@),
            forall|j: int| 0 <= j < kept@.len() ==> kept@[j] < callees@.len(),
            forall|j: int| 0 <= j < listed@.len() ==> listed@[j] < callees@.len(),
            picked_nodes(callees@, listed@) == start + in_file(nodes.take(i as int), path@, same),
        decreases kept.len() - i,
    {
        let ghost before = picked_nodes(callees@, listed@);
        let k = kept[i];
        proof {
            assert(nodes.take(i + 1).drop_last() =~= nodes.take(i as int));
            assert(nodes.take(i + 1).last() == callees@[k as int]);
        }
        if same_path(callees[k].callee.file.as_str(), path) == same {
            listed.push(k);
            assert(picked_nodes(callees@, listed@) =~= before.push(callees@[k as int]));
            assert(before.push(callees@[k as int]) =~= start + in_file(
                nodes.take(i as int),
                path@,
                same,
            ).push(callees@[k as int]));
        }
        i += 1;
    }
    assert(nodes.take(kept@.len() as int) =~= nodes);
}

fn push_children(out: &mut String, children: &Vec<Callee>)
    ensures
        final(out)@ == old(out)@ + children_text(children@, children@.len() as int),
{
    let mut i: usize = 0;
    assert(old(out)@ + children_text(children@, 0) =~= old(out)@);
    while i < children.len()
        invariant
            i <= children.len(),
            out@ == old(out)@ + children_text(children@, i as int),
        decreases children.len() - i,
    {
        let ghost before = out@;
        push_str(out, "\n    \u{2192} ");
        push_callee(out, &children[i]);
        i += 1;
        assert(out@ =~= old(out)@ + children_text(children@, i as int));
    }
}

/// Appends the footer that names what a definition calls.
pub fn push_calls_footer(out: &mut String, m: &Match, callees: &Vec<CalleeNode>)
    ensures
        final(out)@ == old(out)@ + calls_footer(*m, callees@),
{
    let kept = pick_without_self(callees, &m.def_name);
    let listed: Vec<usize> = if kept.len() > MAX_CALLEES {
        let mut order: Vec<usize> = Vec::new();
        assert(picked_nodes(callees@, order@) =~= Seq::<CalleeNode>::empty());
        pick_in_file(callees, &kept, m.path.as_str(), false, &mut order);
        pick_in_file(callees, &kept, m.path.as_str(), true, &mut order);
        proof {
            let nodes = picked_nodes(callees@, kept@);
            assert(picked_nodes(callees@, order@) =~= in_file(nodes, m.path@, false) + in_file(
                nodes,
                m.path@,
                true,
            ));
        }
        let ghost full = picked_nodes(callees@, order@);
        if order.len() > MAX_CALLEES {
            order.truncate(MAX_CALLEES);
            assert(picked_nodes(callees@, order@) =~= full.take(MAX_CALLEES as int));
        } else {
            assert(full.take(MAX_CALLEES as int) =~= full) by {
                lemma_in_file_partition(picked_nodes(callees@, kept@), m.path@);
            }
        }
        order
    } else {
        kept
    };
    let ghost nodes = picked_nodes(callees@, listed@);
    assert(nodes == listed_callees(
        without_self(
            callees@,
            match m.def_name {
                Some(n) => Some(n@),
                None => None,
            },
        ),
        m.path@,
    ));
    if listed.len() == 0 {
        assert(old(out)@ + calls_footer(*m, callees@) =~= old(out)@);
        return ;
    }
    push_str(out, "\n\n\u{2500}\u{2500} calls \u{2500}\u{2500}");
    let ghost head = out@;
    let mut i: usize = 0;
    assert(head + nodes_text(nodes, 0) =~= head);
    while i < listed.len()
        invariant
            i <= listed.len(),
            nodes == picked_nodes(callees@, listed@),
            forall|j: int| 0 <= j < listed@.len() ==> listed@[j] < callees@.len(),
            out@ == head + nodes_text(nodes, i as int),
        decreases listed.len() - i,
    {
        let node = &callees[listed[i]];
        assert(*node == nodes[i as int]);
        push_str(out, "\n  ");
        push_callee(out, &node.callee);
        push_children(out, &node.children);
        i += 1;
        assert(out@ =~= head + nodes_text(nodes, i as int));
    }
    assert(out@ =~= old(out)@ + calls_footer(*m, callees@));
}

/// The callees inside and outside a file are, together, all callees.
pub proof fn lemma_in_file_partition(nodes: Seq<CalleeNode>, path: Seq<char>)
    ensures
        in_file(nodes, path, false).len() + in_file(nodes, path, true).len() == nodes.len(),
    decreases nodes.len(),
{
    if nodes.len() > 0 {
        lemma_in_file_partition(nodes.drop_last(), path);
    }
}

/// The names without `name`.
pub open spec fn without_name(refs: Seq<String>, name: Option<Seq<char>>) -> Seq<String>
    decreases refs.len(),
{
    if refs.len() == 0 {
        Seq::empty()
    } else if name.is_some() && refs.last()@ == name.unwrap() {
        without_name(refs.drop_last(), name)
    } else {
        without_name(refs.drop_last(), name).push(refs.last())
    }
}

/// One sibling: name, place in the file of the match, and signature.
pub open spec fn sibling_text(s: ResolvedSibling, path: Seq<char>) -> Seq<char> {
    "\n  "@ + s.name@ + "  "@ + path + ":"@ + decimal(s.start_line as nat) + "-"@ + decimal(
        s.end_line as nat,
    ) + "  "@ + s.signature@
}

/// The first `n` siblings, one per line.
pub open spec fn siblings_text(sibs: Seq<ResolvedSibling>, path: Seq<char>, n: int) -> Seq<char>
    decreases n,
{
    if n <= 0 {
        Seq::empty()
    } else {
        siblings_text(sibs, path, n - 1) + sibling_text(sibs[n - 1], path)
    }
}

/// The siblings that the footer of a definition lists: the members of its
/// parent that it refers to, itself left out.
pub open spec fn footer_siblings(m: Match, outline: Seq<OutlineEntry>, refs: Seq<String>) -> Seq<
    ResolvedSibling,
> {
    let k = first_parent(outline, m.line);
    if 0 <= k < outline.len() && refs.len() > 0 {
        resolved_siblings(
            without_name(
                refs,
                match m.def_name {
                    Some(n) => Some(n@),
                    None => None,
                },
            ),
            outline[k].children@,
        )
    } else {
        Seq::empty()
    }
}

/// The footer that names the fields and methods of the parent that a
/// definition refers to; nothing if there are none.
pub open spec fn siblings_footer(m: Match, outline: Seq<OutlineEntry>, refs: Seq<String>) -> Seq<char> {
    let sibs = footer_siblings(m, outline, refs);
    if sibs.len() == 0 {
        Seq::empty()
    } else {
        "\n\n\u{2500}\u{2500} siblings \u{2500}\u{2500}"@ + siblings_text(
            sibs,
            m.path@,
            sibs.len() as int,
        )
    }
}

fn names_without(refs: &Vec<String>, def_name: &Option<String>) -> (r: Vec<String>)
    ensures
        r@ == without_name(
            refs@,
            match def_name {
                Some(n) => Some(n@),
                None => None,
            },
        ),
{
    let ghost name = match def_name {
        Some(n) => Some(n@),
        None => None,
    };
    let mut r: Vec<String> = Vec::new();
    let mut i: usize = 0;
    assert(refs@.take(0) =~= Seq::<String>::empty());
    while i < refs.len()
        invariant
            i <= refs.len(),
            name == (match def_name {
                Some(n) => Some(n@),
                None => None,
            }),
            r@ == without_name(refs@.take(i as int), name),
        decreases refs.len() - i,
    {
        proof {
            assert(refs@.take(i + 1).drop_last() =~= refs@.take(i as int));
            assert(refs@.take(i + 1).last() == refs@[i as int]);
        }
        let is_self = match def_name {
            Some(n) => str_eq(refs[i].as_str(), n.as_str()),
            None => false,
        };
        if !is_self {
            r.push(refs[i].clone());
        }
        i += 1;
    }
    assert(refs@.take(refs@.len() as int) =~= refs@);
    r
}

/// Appends the footer that names the siblings a definition refers to.
pub fn push_siblings_footer(out: &mut String, m: &Match, outline: &Vec<OutlineEntry>, refs: &Vec<String>)
    ensures
        final(out)@ == old(out)@ + siblings_footer(*m, outline@, refs@),
{
    let resolved: Vec<ResolvedSibling> = match find_parent_entry(outline, m.line) {
        Some(parent) => {
            if refs.len() > 0 {
                let filtered = names_without(refs, &m.def_name);
                resolve_siblings(&filtered, &parent.children)
            } else {
                Vec::new()
            }
        },
        None => Vec::new(),
    };
    assert(resolved@ =~= footer_siblings(*m, outline@, refs@));
    if resolved.len() == 0 {
        assert(old(out)@ + siblings_footer(*m, outline@, refs@) =~= old(out)@);
        return ;
    }
    push_str(out, "\n\n\u{2500}\u{2500} siblings \u{2500}\u{2500}");
    let ghost head = out@;
    let mut i: usize = 0;
    assert(head + siblings_text(resolved@, m.path@, 0) =~= head);
    while i < resolved.len()
        invariant
            i <= resolved.len(),
            out@ == head + siblings_text(resolved@, m.path@, i as int),
        decreases resolved.len() - i,
    {
        let s = &resolved[i];
        let ghost before = out@;
        push_str(out, "\n  ");
        push_str(out, s.name.as_str());
        push_str(out, "  ");
        push_str(out, m.path.as_str());
        push_str(out, ":");
        push_decimal(out, s.start_line as u64);
        push_str(out, "-");
        push_decimal(out, s.end_line as u64);
        push_str(out, "  ");
        push_str(out, s.signature.as_str());
        assert(out@ =~= before + sibling_text(*s, m.path@));
        i += 1;
    }
    assert(out@ =~= old(out)@ + siblings_footer(*m, outline@, refs@));
}

/// The footer that names related files; nothing if there are none.
pub open spec fn related_footer(related: Seq<String>) -> Seq<char> {
    if related.len() == 0 {
        Seq::empty()
    } else {
        "\n\n> Related: "@ + join(string_views(related), ", "@)
    }
}

/// Appends the footer that names related files.
pub fn push_related_footer(out: &mut String, related: &Vec<String>)
    ensures
        final(out)@ == old(out)@ + related_footer(related@),
{
    if related.len() == 0 {
        assert(old(out)@ + related_footer(related@) =~= old(out)@);
        return ;
    }
    push_str(out, "\n\n> Related: ");
    let list = join_strings(related, ", ");
    push_str(out, list.as_str());
    assert(out@ =~= old(out)@ + related_footer(related@));
}

// ---------------------------------------------------------------------------
// The expansion of one match
// ---------------------------------------------------------------------------

/// The lines of a definition that the selection for a long definition does
/// not keep; none without a range, for a definition that is not long, or for
/// a file that is no code.
pub open spec fn unselected_lines(m: Match, content: Seq<char>) -> Set<u32> {
    match m.def_range {
        Some(r) => if file_type_of(m.path@) is Code {
            match diverse_lines(content, r.0, r.1) {
                Some(k) => Set::new(|ln: u32| r.0 <= ln <= r.1 && !k.contains(ln)),
                None => Set::empty(),
            }
        } else {
            Set::empty()
        },
        None => Set::empty(),
    }
}

/// The lines that are left out of an expansion: noise, and what the selection
/// for a long definition does not keep.
pub open spec fn dropped_lines(m: Match, e: Expansion) -> Set<u32> {
    noise_lines(e.content@, m.path@, m.def_range).union(unselected_lines(m, e.content@))
}

/// The code of an expansion: the code block of the match, without the lines
/// that are left out.
pub open spec fn body_text(m: Match, e: Expansion) -> Seq<char> {
    let code = code_block(m, e.content@);
    let skip = dropped_lines(m, e);
    if skip.is_empty() {
        code
    } else {
        filtered_code(code, skip)
    }
}

/// The footers of an expansion: calls and siblings for a definition with a
/// range in a code file, related files for everything that is no such
/// definition.
pub open spec fn footers_text(m: Match, e: Expansion) -> Seq<char> {
    if m.is_definition && m.def_range.is_some() {
        if file_type_of(m.path@) is Code {
            calls_footer(m, e.callees@) + siblings_footer(m, e.outline@, e.sibling_refs@)
        } else {
            Seq::empty()
        }
    } else {
        related_footer(e.related@)
    }
}

/// An expansion: the code on a new line, then the footers.
pub open spec fn expansion_text(m: Match, e: Expansion) -> Seq<char> {
    "\n"@ + body_text(m, e) + footers_text(m, e)
}

fn contains_line(keep: &Vec<u32>, ln: u32) -> (b: bool)
    ensures
        b == keep@.contains(ln),
{
    let mut i: usize = 0;
    while i < keep.len()
        invariant
            i <= keep.len(),
            forall|j: int| 0 <= j < i ==> keep@[j] != ln,
        decreases keep.len() - i,
    {
        if keep[i] == ln {
            return true;
        }
        i += 1;
    }
    false
}

/// The numbers of the lines that an expansion leaves out.
pub fn lines_to_drop(m: &Match, e: &Expansion) -> (skip: HashSet<u32>)
    ensures
        skip@ == dropped_lines(*m, *e),
{
    let mut skip = strip_noise(e.content.as_str(), m.path.as_str(), m.def_range);
    let ghost noise = skip@;
    let ghost extra = unselected_lines(*m, e.content@);
    match m.def_range {
        Some((start, end)) => match detect_file_type(m.path.as_str()) {
            FileType::Code(lang) => match select_diverse_lines(e.content.as_str(), start, end, lang) {
                Some(keep) => {
                    if start <= end {
                        let mut ln: u64 = start as u64;
                        while ln <= end as u64
                            invariant
                                start <= ln <= end + 1,
                                forall|x: u32|
                                    skip@.contains(x) <==> (noise.contains(x) || (start <= x < ln
                                        && !keep@.contains(x))),
                            decreases end + 1 - ln,
                        {
                            if !contains_line(&keep, ln as u32) {
                                skip.insert(ln as u32);
                            }
                            ln += 1;
                        }
                        assert(skip@ =~= noise.union(extra));
                    } else {
                        assert(extra =~= Set::<u32>::empty());
                        assert(skip@ =~= noise.union(extra));
                    }
                },
                None => {
                    assert(skip@ =~= noise.union(extra));
                },
            },
            _ => {
                assert(skip@ =~= noise.union(extra));
            },
        },
        None => {
            assert(skip@ =~= noise.union(extra));
        },
    }
    skip
}

/// Appends the expansion of a match: its code without noise, then its
/// footers.
pub fn push_expansion(out: &mut String, m: &Match, e: &Expansion)
    ensures
        final(out)@ == old(out)@ + expansion_text(*m, *e),
{
    let code = expand_match(m, e.content.as_str());
    let skip = lines_to_drop(m, e);
    let body = if skip.is_empty() {
        code
    } else {
        filter_code_lines(code.as_str(), &skip)
    };
    assert(body@ == body_text(*m, *e));
    push_str(out, "\n");
    push_str(out, body.as_str());
    let ghost mid = out@;
    if m.is_definition && m.def_range.is_some() {
        let is_code = match detect_file_type(m.path.as_str()) {
            FileType::Code(_) => true,
            _ => false,
        };
        if is_code {
            push_calls_footer(out, m, &e.callees);
            push_siblings_footer(out, m, &e.outline, &e.sibling_refs);
        }
    } else {
        push_related_footer(out, &e.related);
    }
    assert(out@ =~= mid + footers_text(*m, *e));
    assert(out@ =~= old(out)@ + expansion_text(*m, *e));
}

// ---------------------------------------------------------------------------
// A list of matches
// ---------------------------------------------------------------------------

/// How far a rendering has come: the text so far, the expansions that are
/// still allowed, the files expanded so far, and the definitions that the
/// session has seen expanded.
pub struct Progress {
    pub out: Seq<char>,
    pub remaining: nat,
    pub expanded: Set<Seq<Seq<char>>>,
    pub shown: Set<(Seq<Seq<char>>, u32)>,
}

/// Whether the matches lie in more than one file.
pub open spec fn multi_file(matches: Seq<Match>) -> bool {
    exists|i: int|
        0 <= i < matches.len() && !is_same_path((#[trigger] matches[i]).path@, matches[0].path@)
}

/// The note that stands for a definition that was expanded earlier in the
/// session.
pub open spec fn earlier_text(m: Match) -> Seq<char> {
    "\n\n[shown earlier] "@ + m.path@ + ":"@ + decimal(m.def_range.unwrap().0 as nat) + "-"@
        + decimal(m.def_range.unwrap().1 as nat) + " "@ + m.text@
}

/// Whether the session stands in for the expansion of `m`: it tracks
/// expansions and has seen this definition expanded.
pub open spec fn seen_before(p: Progress, m: Match, track: bool) -> bool {
    m.is_definition && m.def_range.is_some() && track && p.shown.contains(
        (components(m.path@), m.line),
    )
}

/// The rendering after one more match.
///
/// Every match gets its heading and its locator. While expansions remain, a
/// definition seen before gets a note; a match in a file that was expanded
/// already is passed over if the matches span several files; any other match
/// whose file could be read is expanded, which uses up one expansion.
pub open spec fn after_match(
    p: Progress,
    m: Match,
    source: Option<MatchSource>,
    multi: bool,
    track: bool,
) -> Progress {
    let out = p.out + heading_text(m) + locator_text(m, source);
    let plain = Progress { out, remaining: p.remaining, expanded: p.expanded, shown: p.shown };
    if p.remaining == 0 {
        plain
    } else if seen_before(p, m, track) {
        Progress {
            out: out + earlier_text(m),
            remaining: p.remaining,
            expanded: p.expanded,
            shown: p.shown,
        }
    } else if multi && p.expanded.contains(components(m.path@)) {
        plain
    } else {
        match source {
            Some(s) => match s.expansion {
                Some(e) => Progress {
                    out: out + expansion_text(m, e),
                    remaining: (p.remaining - 1) as nat,
                    expanded: p.expanded.insert(components(m.path@)),
                    shown: if m.is_definition && m.def_range.is_some() && track {
                        p.shown.insert((components(m.path@), m.line))
                    } else {
                        p.shown
                    },
                },
                None => plain,
            },
            None => plain,
        }
    }
}

/// The rendering after the first `n` matches.
pub open spec fn after_matches(
    p: Progress,
    matches: Seq<Match>,
    sources: Seq<MatchSource>,
    multi: bool,
    track: bool,
    n: int,
) -> Progress
    decreases n,
{
    if n <= 0 {
        p
    } else {
        after_match(
            after_matches(p, matches, sources, multi, track, n - 1),
            matches[n - 1],
            source_of(sources, matches[n - 1]),
            multi,
            track,
        )
    }
}

/// The files, by their components, that a list of paths names.
pub open spec fn file_set(paths: Seq<String>) -> Set<Seq<Seq<char>>> {
    Set::new(
        |c: Seq<Seq<char>>| exists|i: int| 0 <= i < paths.len() && components(#[trigger] paths[i]@) == c,
    )
}

fn is_multi_file(matches: &Vec<Match>) -> (b: bool)
    ensures
        b == multi_file(matches@),
{
    if matches.len() == 0 {
        return false;
    }
    let mut i: usize = 0;
    while i < matches.len()
        invariant
            i <= matches.len(),
            matches.len() > 0,
            forall|j: int|
                0 <= j < i ==> is_same_path((#[trigger] matches@[j]).path@, matches@[0].path@),
        decreases matches.len() - i,
    {
        if !same_path(matches[i].path.as_str(), matches[0].path.as_str()) {
            return true;
        }
        i += 1;
    }
    false
}

fn file_is_listed(files: &Vec<String>, path: &str) -> (b: bool)
    ensures
        b == file_set(files@).contains(components(path@)),
{
    let mut i: usize = 0;
    while i < files.len()
        invariant
            i <= files.len(),
            forall|j: int| 0 <= j < i ==> components(#[trigger] files@[j]@) != components(path@),
        decreases files.len() - i,
    {
        if same_path(files[i].as_str(), path) {
            return true;
        }
        i += 1;
    }
    false
}

fn list_file(files: &mut Vec<String>, path: &str)
    ensures
        file_set(final(files)@) == file_set(old(files)@).insert(components(path@)),
{
    files.push(path.to_owned());
    proof {
        let before = old(files)@;
        let after = files@;
        assert forall|c: Seq<Seq<char>>|
            file_set(after).contains(c) == file_set(before).insert(components(path@)).contains(
                c,
            ) by {
            if file_set(before).contains(c) {
                let i = choose|i: int| 0 <= i < before.len() && components(#[trigger] before[i]@) == c;
                assert(after[i] == before[i]);
            }
            if c == components(path@) {
                assert(components(after[before.len() as int]@) == c);
            }
            if file_set(after).contains(c) {
                let i = choose|i: int| 0 <= i < after.len() && components(#[trigger] after[i]@) == c;
                if i < before.len() {
                    assert(after[i] == before[i]);
                }
            }
        }
        assert(file_set(after) =~= file_set(before).insert(components(path@)));
    }
}

/// The state of a rendering that is held in variables.
pub open spec fn progress_of(out: Seq<char>, remaining: usize, files: Seq<String>, session: Session) -> Progress {
    Progress { out, remaining: remaining as nat, expanded: file_set(files), shown: session.shown() }
}

/// Renders one match: heading, locator, and its expansion where one is due.
pub fn format_match(
    m: &Match,
    source: Option<&MatchSource>,
    multi: bool,
    session: &mut Session,
    track: bool,
    expand_remaining: &mut usize,
    expanded_files: &mut Vec<String>,
    out: &mut String,
)
    ensures
        progress_of(final(out)@, *final(expand_remaining), final(expanded_files)@, *final(session))
            == after_match(
            progress_of(old(out)@, *old(expand_remaining), old(expanded_files)@, *old(session)),
            *m,
            match source {
                Some(s) => Some(*s),
                None => None,
            },
            multi,
            track,
        ),
{
    let ghost start = progress_of(out@, *expand_remaining, expanded_files@, *session);
    let ghost src: Option<MatchSource> = match source {
        Some(s) => Some(*s),
        None => None,
    };
    push_heading(out, m);
    push_locator(out, m, source);
    assert(out@ =~= start.out + heading_text(*m) + locator_text(*m, src));
    if *expand_remaining == 0 {
        return ;
    }
    let deduped = m.is_definition && m.def_range.is_some() && track && session.is_expanded(
        m.path.as_str(),
        m.line,
    );
    assert(deduped == seen_before(start, *m, track));
    if deduped {
        let ghost before = out@;
        match m.def_range {
            Some((s, e)) => {
                push_str(out, "\n\n[shown earlier] ");
                push_str(out, m.path.as_str());
                push_str(out, ":");
                push_decimal(out, s as u64);
                push_str(out, "-");
                push_decimal(out, e as u64);
                push_str(out, " ");
                push_str(out, m.text.as_str());
            },
            None => {},
        }
        assert(out@ =~= before + earlier_text(*m));
        return ;
    }
    if multi && file_is_listed(expanded_files, m.path.as_str()) {
        return ;
    }
    match source {
        Some(s) => match &s.expansion {
            Some(e) => {
                if m.is_definition && m.def_range.is_some() && track {
                    session.record_expand(m.path.as_str(), m.line);
                }
                push_expansion(out, m, e);
                *expand_remaining = *expand_remaining - 1;
                list_file(expanded_files, m.path.as_str());
            },
            None => {},
        },
        None => {},
    }
}

/// Renders the entries of `matches` onto `out`.
///
/// `sources` holds what is known from disk for the matches, found by path
/// and line. While `expand_remaining` is above zero, matches are expanded:
/// one expansion per file if the matches span several files. With `track`
/// set, the session stands in for definitions that it has seen expanded, and
/// learns of those expanded here.
pub fn format_matches(
    matches: &Vec<Match>,
    sources: &Vec<MatchSource>,
    session: &mut Session,
    track: bool,
    expand_remaining: &mut usize,
    expanded_files: &mut Vec<String>,
    out: &mut String,
)
    ensures
        progress_of(final(out)@, *final(expand_remaining), final(expanded_files)@, *final(session))
            == after_matches(
            progress_of(old(out)@, *old(expand_remaining), old(expanded_files)@, *old(session)),
            matches@,
            sources@,
            multi_file(matches@),
            track,
            matches@.len() as int,
        ),
{
    let ghost start = progress_of(out@, *expand_remaining, expanded_files@, *session);
    let multi = is_multi_file(matches);
    let mut i: usize = 0;
    while i < matches.len()
        invariant
            i <= matches.len(),
            multi == multi_file(matches@),
            progress_of(out@, *expand_remaining, expanded_files@, *session) == after_matches(
                start,
                matches@,
                sources@,
                multi,
                track,
                i as int,
            ),
        decreases matches.len() - i,
    {
        let m = &matches[i];
        let source = find_source(sources, m);
        format_match(m, source, multi, session, track, expand_remaining, expanded_files, out);
        i += 1;
    }
}

// ---------------------------------------------------------------------------
// A whole result
// ---------------------------------------------------------------------------

/// From this many matches on, a result is shown in facets.
pub const FACET_THRESHOLD: usize = 5;

/// The rendering after one facet: unchanged if the facet is empty, else its
/// title with the number of its matches, then the matches.
pub open spec fn after_facet(
    p: Progress,
    title: Seq<char>,
    group: Seq<Match>,
    sources: Seq<MatchSource>,
    track: bool,
) -> Progress {
    if group.len() == 0 {
        p
    } else {
        after_matches(
            Progress {
                out: p.out + "\n\n### "@ + title + " ("@ + decimal(group.len()) + ")"@,
                remaining: p.remaining,
                expanded: p.expanded,
                shown: p.shown,
            },
            group,
            sources,
            multi_file(group),
            track,
            group.len() as int,
        )
    }
}

/// The note on matches that were found but are not shown; nothing if all are
/// shown.
pub open spec fn omitted_text(total_found: nat, shown: nat) -> Seq<char> {
    if total_found > shown {
        "\n\n... and "@ + decimal((total_found - shown) as nat) + " more matches. Narrow with scope."@
    } else {
        Seq::empty()
    }
}

/// The rendering of the matches of a result behind a header: as one list up
/// to five matches, in facets above.
pub open spec fn after_result_matches(
    p: Progress,
    matches: Seq<Match>,
    sources: Seq<MatchSource>,
    track: bool,
    known: Set<Seq<Seq<char>>>,
) -> Progress {
    if matches.len() > FACET_THRESHOLD {
        let primary = primary_package(matches, known);
        let a = after_facet(
            p,
            "Definitions"@,
            in_facet(matches, Facet::Definitions, primary, known),
            sources,
            track,
        );
        let b = after_facet(
            a,
            "Implementations"@,
            in_facet(matches, Facet::Implementations, primary, known),
            sources,
            track,
        );
        let c = after_facet(
            b,
            "Tests"@,
            in_facet(matches, Facet::Tests, primary, known),
            sources,
            track,
        );
        let d = after_facet(
            c,
            "Usages — same package"@,
            in_facet(matches, Facet::UsagesLocal, primary, known),
            sources,
            track,
        );
        after_facet(
            d,
            "Usages — other"@,
            in_facet(matches, Facet::UsagesCross, primary, known),
            sources,
            track,
        )
    } else {
        after_matches(p, matches, sources, multi_file(matches), track, matches.len() as int)
    }
}

/// The rendering of a whole result: header, matches, and the note on what is
/// not shown.
pub open spec fn rendered_result(
    result: SearchResult,
    sources: Seq<MatchSource>,
    shown: Set<(Seq<Seq<char>>, u32)>,
    track: bool,
    expand: usize,
    known: Set<Seq<Seq<char>>>,
) -> Progress {
    let start = Progress {
        out: search_header_text(
            result.query@,
            result.scope@,
            result.matches@.len(),
            result.definitions as nat,
            result.usages as nat,
        ),
        remaining: expand as nat,
        expanded: Set::empty(),
        shown,
    };
    let body = after_result_matches(start, result.matches@, sources, track, known);
    Progress {
        out: body.out + omitted_text(result.total_found as nat, result.matches@.len()),
        remaining: body.remaining,
        expanded: body.expanded,
        shown: body.shown,
    }
}

fn format_facet(
    title: &str,
    group: &Vec<Match>,
    sources: &Vec<MatchSource>,
    session: &mut Session,
    track: bool,
    expand_remaining: &mut usize,
    expanded_files: &mut Vec<String>,
    out: &mut String,
)
    ensures
        progress_of(final(out)@, *final(expand_remaining), final(expanded_files)@, *final(session))
            == after_facet(
            progress_of(old(out)@, *old(expand_remaining), old(expanded_files)@, *old(session)),
            title@,
            group@,
            sources@,
            track,
        ),
{
    if group.len() == 0 {
        return ;
    }
    push_str(out, "\n\n### ");
    push_str(out, title);
    push_str(out, " (");
    push_decimal(out, group.len() as u64);
    push_str(out, ")");
    assert(out@ =~= old(out)@ + "\n\n### "@ + title@ + " ("@ + decimal(group@.len()) + ")"@);
    format_matches(group, sources, session, track, expand_remaining, expanded_files, out);
}

/// Renders the matches of a result: as one list up to five matches, in
/// facets above.
#[verifier::rlimit(60)]
fn format_result_matches(
    matches: &Vec<Match>,
    sources: &Vec<MatchSource>,
    session: &mut Session,
    track: bool,
    manifest_dirs: &Vec<String>,
    expand_remaining: &mut usize,
    expanded_files: &mut Vec<String>,
    out: &mut String,
)
    ensures
        progress_of(final(out)@, *final(expand_remaining), final(expanded_files)@, *final(session))
            == after_result_matches(
            progress_of(old(out)@, *old(expand_remaining), old(expanded_files)@, *old(session)),
            matches@,
            sources@,
            track,
            parsed_dirs(manifest_dirs@),
        ),
{
    if matches.len() > FACET_THRESHOLD {
        let faceted = facet_matches(crate::types::duplicate_matches(matches), manifest_dirs);
        format_facet(
            "Definitions",
            &faceted.definitions,
            sources,
            session,
            track,
            expand_remaining,
            expanded_files,
            out,
        );
        format_facet(
            "Implementations",
            &faceted.implementations,
            sources,
            session,
            track,
            expand_remaining,
            expanded_files,
            out,
        );
        format_facet(
            "Tests",
            &faceted.tests,
            sources,
            session,
            track,
            expand_remaining,
            expanded_files,
            out,
        );
        format_facet(
            "Usages — same package",
            &faceted.usages_local,
            sources,
            session,
            track,
            expand_remaining,
            expanded_files,
            out,
        );
        format_facet(
            "Usages — other",
            &faceted.usages_cross,
            sources,
            session,
            track,
            expand_remaining,
            expanded_files,
            out,
        );
    } else {
        format_matches(matches, sources, session, track, expand_remaining, expanded_files, out);
    }
}

/// Formats a search result: the header, an entry per match, and a note if
/// more was found than is shown.
///
/// Up to `expand` of the top matches are expanded. Above five matches the
/// entries come in facets. `manifest_dirs` are the directories that hold a
/// package manifest; `track` says whether the session takes part.
#[verifier::rlimit(60)]
pub fn format_search_result(
    result: &SearchResult,
    sources: &Vec<MatchSource>,
    session: &mut Session,
    track: bool,
    expand: usize,
    manifest_dirs: &Vec<String>,
) -> (text: String)
    ensures
        ({
            let end = rendered_result(
                *result,
                sources@,
                old(session).shown(),
                track,
                expand,
                parsed_dirs(manifest_dirs@),
            );
            text@ == end.out && final(session).shown() == end.shown
        }),
{
    let mut out = search_header(
        result.query.as_str(),
        result.scope.as_str(),
        result.matches.len(),
        result.definitions,
        result.usages,
    );
    let mut expand_remaining = expand;
    let mut expanded_files: Vec<String> = Vec::new();
    assert(file_set(expanded_files@) =~= Set::<Seq<Seq<char>>>::empty());
    format_result_matches(
        &result.matches,
        sources,
        session,
        track,
        manifest_dirs,
        &mut expand_remaining,
        &mut expanded_files,
        &mut out,
    );
    let ghost body = out@;
    if result.total_found > result.matches.len() {
        let omitted = result.total_found - result.matches.len();
        push_str(&mut out, "\n\n... and ");
        push_decimal(&mut out, omitted as u64);
        push_str(&mut out, " more matches. Narrow with scope.");
    }
    assert(out@ =~= body + omitted_text(result.total_found as nat, result.matches@.len()));
    out
}

} // verus!
