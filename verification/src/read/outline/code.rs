//! The outline of a code file: its declarations, nested as in the source.

use vstd::prelude::*;

use crate::bytes::{byte_texts, lossy_text, split_byte_lines, text_lossy};
use crate::index::symbol::line_of;
use crate::search::strip::is_word;
use crate::search::treesitter::{
    definition_name, extract_definition_name, node_text, node_text_simple,
};
use crate::syntax::SyntaxNode;
use crate::text::{
    decimal, push_decimal, push_repeat, push_str, repeat, slice_chars, string_of, to_chars, trim,
    trim_chars,
};
use crate::types::{
    entry_view, entry_views, lemma_children_views, opt_string_view, EntryView, OutlineEntry,
    OutlineKind,
};

verus! {

/// The deepest level of a syntax tree that is searched for declarations.
pub const MAX_OUTLINE_DEPTH: usize = 3;

/// The most characters of a signature.
pub const MAX_SIGNATURE: usize = 120;

/// The kind of declaration that a node of this kind stands for, if any.
pub open spec fn declaration_kind(kind: Seq<char>) -> Option<OutlineKind> {
    if kind == "use_declaration"@ || kind == "import_statement"@ || kind
        == "import_from_statement"@ || kind == "import_declaration"@ || kind == "preproc_include"@ {
        Some(OutlineKind::Import)
    } else if kind == "function_declaration"@ || kind == "function_definition"@ || kind
        == "function_item"@ {
        Some(OutlineKind::Function)
    } else if kind == "method_definition"@ || kind == "method_declaration"@ {
        Some(OutlineKind::Method)
    } else if kind == "class_declaration"@ || kind == "class_definition"@ {
        Some(OutlineKind::Class)
    } else if kind == "struct_item"@ {
        Some(OutlineKind::Struct)
    } else if kind == "interface_declaration"@ || kind == "trait_item"@ {
        Some(OutlineKind::Interface)
    } else if kind == "enum_item"@ || kind == "enum_declaration"@ {
        Some(OutlineKind::Enum)
    } else if kind == "type_alias_declaration"@ || kind == "type_item"@ || kind
        == "type_declaration"@ {
        Some(OutlineKind::TypeAlias)
    } else if kind == "const_item"@ || kind == "static_item"@ || kind == "lexical_declaration"@
        || kind == "variable_declaration"@ {
        Some(OutlineKind::Constant)
    } else if kind == "mod_item"@ {
        Some(OutlineKind::Module)
    } else if kind == "impl_item"@ {
        Some(OutlineKind::Impl)
    } else if kind == "field_declaration"@ || kind == "field_definition"@ || kind
        == "public_field_definition"@ {
        Some(OutlineKind::Field)
    } else {
        None
    }
}

/// The kind of declaration that a node of this kind stands for, if any.
pub fn classify_declaration(kind: &str) -> (k: Option<OutlineKind>)
    ensures
        k == declaration_kind(kind@),
{
    let n = to_chars(kind);
    if is_word(&n, "use_declaration") || is_word(&n, "import_statement") || is_word(
        &n,
        "import_from_statement",
    ) || is_word(&n, "import_declaration") || is_word(&n, "preproc_include") {
        Some(OutlineKind::Import)
    } else if is_word(&n, "function_declaration") || is_word(&n, "function_definition")
        || is_word(&n, "function_item") {
        Some(OutlineKind::Function)
    } else if is_word(&n, "method_definition") || is_word(&n, "method_declaration") {
        Some(OutlineKind::Method)
    } else if is_word(&n, "class_declaration") || is_word(&n, "class_definition") {
        Some(OutlineKind::Class)
    } else if is_word(&n, "struct_item") {
        Some(OutlineKind::Struct)
    } else if is_word(&n, "interface_declaration") || is_word(&n, "trait_item") {
        Some(OutlineKind::Interface)
    } else if is_word(&n, "enum_item") || is_word(&n, "enum_declaration") {
        Some(OutlineKind::Enum)
    } else if is_word(&n, "type_alias_declaration") || is_word(&n, "type_item") || is_word(
        &n,
        "type_declaration",
    ) {
        Some(OutlineKind::TypeAlias)
    } else if is_word(&n, "const_item") || is_word(&n, "static_item") || is_word(
        &n,
        "lexical_declaration",
    ) || is_word(&n, "variable_declaration") {
        Some(OutlineKind::Constant)
    } else if is_word(&n, "mod_item") {
        Some(OutlineKind::Module)
    } else if is_word(&n, "impl_item") {
        Some(OutlineKind::Impl)
    } else if is_word(&n, "field_declaration") || is_word(&n, "field_definition") || is_word(
        &n,
        "public_field_definition",
    ) {
        Some(OutlineKind::Field)
    } else {
        None
    }
}

/// Whether declarations of this kind hold members: a function inside of one
/// is a method.
pub open spec fn holds_members(kind: OutlineKind) -> bool {
    kind == OutlineKind::Class || kind == OutlineKind::Struct || kind == OutlineKind::Interface
        || kind == OutlineKind::Impl
}

/// The signature of a declaration: its first line, trimmed and cut to 120
/// characters; none where that line is blank or missing.
pub open spec fn signature_text(node: SyntaxNode, lines: Seq<Seq<u8>>) -> Option<Seq<char>> {
    if node.start_row >= lines.len() {
        None
    } else {
        let line = trim(lossy_text(lines[node.start_row as int]));
        if line.len() == 0 {
            None
        } else if line.len() > MAX_SIGNATURE {
            Some(line.subrange(0, MAX_SIGNATURE as int))
        } else {
            Some(line)
        }
    }
}

/// The name of a declaration: the name that its node defines, or else the
/// text of the node.
pub open spec fn entry_name(node: SyntaxNode, lines: Seq<Seq<u8>>) -> Seq<char> {
    match definition_name(node, lines) {
        Some(name) => name,
        None => node_text(node, lines),
    }
}

/// The entry for a declaration of kind `found` between the lines `start` and
/// `end`, with the given children. Inside a declaration that holds members, a
/// function is a method.
pub open spec fn declared_entry(
    node: SyntaxNode,
    lines: Seq<Seq<u8>>,
    found: OutlineKind,
    in_type: bool,
    children: Seq<EntryView>,
) -> EntryView {
    EntryView {
        name: entry_name(node, lines),
        kind: if in_type && found.is_callable() {
            OutlineKind::Method
        } else {
            found
        },
        signature: signature_text(node, lines),
        start_line: line_of(node.start_row),
        end_line: line_of(node.end_row),
        children,
    }
}

/// Whether a declaration on the lines of `node` is taken after the entries
/// `before`: its lines lie between `lo` and `hi`, and behind the last entry.
pub open spec fn takes_entry(node: SyntaxNode, lo: u32, hi: u32, before: Seq<EntryView>) -> bool {
    &&& lo <= line_of(node.start_row) <= line_of(node.end_row) <= hi
    &&& (before.len() == 0 || before.last().end_line < line_of(node.start_row))
}

/// The entries `acc`, and behind them the declarations found below `node`,
/// which lies at `depth`.
///
/// A declaration becomes an entry if its lines lie between `lo` and `hi` and
/// behind the entry in front of it; the declarations below it become its
/// children. Nodes that are no declarations are looked through. Nothing is
/// looked for below depth three.
pub open spec fn declared(
    node: SyntaxNode,
    lines: Seq<Seq<u8>>,
    depth: int,
    lo: u32,
    hi: u32,
    in_type: bool,
    acc: Seq<EntryView>,
) -> Seq<EntryView>
    decreases node, node.children@.len() + 1,
{
    if depth > MAX_OUTLINE_DEPTH {
        acc
    } else {
        declared_among(node, lines, depth, lo, hi, in_type, acc, node.children@.len() as int)
    }
}

/// The entries `acc`, and behind them the declarations found at and below
/// the first `n` children of `node`.
pub open spec fn declared_among(
    node: SyntaxNode,
    lines: Seq<Seq<u8>>,
    depth: int,
    lo: u32,
    hi: u32,
    in_type: bool,
    acc: Seq<EntryView>,
    n: int,
) -> Seq<EntryView>
    decreases node, n,
{
    if n <= 0 || n > node.children@.len() {
        acc
    } else {
        let before = declared_among(node, lines, depth, lo, hi, in_type, acc, n - 1);
        let child = node.children@[n - 1];
        match declaration_kind(child.kind@) {
            Some(found) => if takes_entry(child, lo, hi, before) {
                before.push(
                    declared_entry(
                        child,
                        lines,
                        found,
                        in_type,
                        declared(
                            child,
                            lines,
                            depth + 1,
                            line_of(child.start_row),
                            line_of(child.end_row),
                            holds_members(found),
                            Seq::empty(),
                        ),
                    ),
                )
            } else {
                before
            },
            None => declared(child, lines, depth + 1, lo, hi, in_type, before),
        }
    }
}

/// The outline of a syntax tree over the lines of its file.
pub open spec fn outline_of(root: SyntaxNode, lines: Seq<Seq<u8>>) -> Seq<EntryView> {
    declared(root, lines, 0, 1, u32::MAX, false, Seq::empty())
}

/// Whether the entries are an outline between the lines `lo` and `hi`: each
/// is well formed and lies between them, and each begins after the one in
/// front of it has ended.
pub open spec fn is_outline(entries: Seq<OutlineEntry>, lo: u32, hi: u32) -> bool {
    &&& forall|i: int| 0 <= i < entries.len() ==> (#[trigger] entries[i]).well_formed()
    &&& forall|i: int|
        0 <= i < entries.len() ==> lo <= (#[trigger] entries[i]).start_line && entries[i].end_line
            <= hi
    &&& forall|i: int, j: int|
        0 <= i < j < entries.len() ==> (#[trigger] entries[i]).end_line < (
        #[trigger] entries[j]).start_line
}

/// An outline between two lines, as the children of an entry with that
/// range, makes the entry well formed.
pub proof fn lemma_outline_as_children(parent: OutlineEntry)
    requires
        1 <= parent.start_line <= parent.end_line,
        is_outline(parent.children@, parent.start_line, parent.end_line),
    ensures
        parent.well_formed(),
{
}

/// In an outline, every entry and everything below it has a range of lines
/// that begin at one or later, children lie inside their parents, and
/// siblings do not share a line.
pub proof fn lemma_outline_invariants(entries: Seq<OutlineEntry>, lo: u32, hi: u32, i: int, j: int)
    requires
        is_outline(entries, lo, hi),
        0 <= i < entries.len(),
        0 <= j < entries[i].children@.len(),
    ensures
        1 <= entries[i].start_line <= entries[i].end_line,
        1 <= entries[i].children@[j].start_line <= entries[i].children@[j].end_line,
        entries[i].start_line <= entries[i].children@[j].start_line,
        entries[i].children@[j].end_line <= entries[i].end_line,
        forall|k: int|
            j < k < entries[i].children@.len() ==> entries[i].children@[j].end_line < (
            #[trigger] entries[i].children@[k]).start_line,
{
    assert(entries[i].well_formed());
    assert(entries[i].children@[j].well_formed());
}

fn line_number(row: usize) -> (line: u32)
    ensures
        line == line_of(row),
        line >= 1,
{
    if row >= u32::MAX as usize {
        u32::MAX
    } else {
        (row + 1) as u32
    }
}

/// The signature of a declaration: its first line, trimmed and cut to 120
/// characters.
fn signature_of(node: &SyntaxNode, lines: &Vec<Vec<u8>>) -> (s: Option<String>)
    ensures
        opt_string_view(s) == signature_text(*node, byte_texts(lines@)),
{
    if node.start_row >= lines.len() {
        return None;
    }
    let line = text_lossy(lines[node.start_row].as_slice());
    let trimmed = trim_chars(&to_chars(line.as_str()));
    if trimmed.len() == 0 {
        return None;
    }
    let cut = if trimmed.len() > MAX_SIGNATURE {
        slice_chars(&trimmed, 0, MAX_SIGNATURE)
    } else {
        trimmed
    };
    Some(string_of(&cut))
}

/// Adds to `out` the declarations found below `node`, which lies at `depth`.
///
/// A declaration becomes an entry if its lines lie between `lo` and `hi` and
/// behind the entry in front of it; its own declarations become its
/// children. Nodes that are no declarations are looked through. Nothing is
/// looked for below depth three.
pub fn collect_declarations(
    node: &SyntaxNode,
    lines: &Vec<Vec<u8>>,
    depth: usize,
    lo: u32,
    hi: u32,
    in_type: bool,
    out: &mut Vec<OutlineEntry>,
)
    requires
        is_outline(old(out)@, lo, hi),
    ensures
        is_outline(final(out)@, lo, hi),
        entry_views(final(out)@) == declared(
            *node,
            byte_texts(lines@),
            depth as int,
            lo,
            hi,
            in_type,
            entry_views(old(out)@),
        ),
    decreases node,
{
    let ghost ls = byte_texts(lines@);
    let ghost start_views = entry_views(out@);
    if depth > MAX_OUTLINE_DEPTH {
        return ;
    }
    let mut i: usize = 0;
    while i < node.children.len()
        invariant
            i <= node.children@.len(),
            depth <= MAX_OUTLINE_DEPTH,
            ls == byte_texts(lines@),
            is_outline(out@, lo, hi),
            entry_views(out@) == declared_among(
                *node,
                ls,
                depth as int,
                lo,
                hi,
                in_type,
                start_views,
                i as int,
            ),
        decreases node.children@.len() - i,
    {
        let child = &node.children[i];
        let ghost before = out@;
        match classify_declaration(child.kind.as_str()) {
            Some(found) => {
                let start = line_number(child.start_row);
                let end = line_number(child.end_row);
                let behind = if out.len() == 0 {
                    true
                } else {
                    out[out.len() - 1].end_line < start
                };
                assert(behind == (entry_views(before).len() == 0 || entry_views(
                    before,
                ).last().end_line < start));
                if lo <= start && start <= end && end <= hi && behind {
                    let kind = if in_type && found.callable() {
                        OutlineKind::Method
                    } else {
                        found
                    };
                    let name = match extract_definition_name(child, lines) {
                        Some(n) => n,
                        None => node_text_simple(child, lines),
                    };
                    let mut children: Vec<OutlineEntry> = Vec::new();
                    let members = match found {
                        OutlineKind::Class => true,
                        OutlineKind::Struct => true,
                        OutlineKind::Interface => true,
                        OutlineKind::Impl => true,
                        _ => false,
                    };
                    assert(entry_views(children@) =~= Seq::<EntryView>::empty());
                    collect_declarations(child, lines, depth + 1, start, end, members, &mut children);
                    let entry = OutlineEntry {
                        name,
                        kind,
                        signature: signature_of(child, lines),
                        start_line: start,
                        end_line: end,
                        children,
                    };
                    proof {
                        lemma_outline_as_children(entry);
                        lemma_children_views(entry, entry.children@.len() as int);
                        assert(entry_view(entry) == declared_entry(
                            *child,
                            ls,
                            found,
                            in_type,
                            entry_views(entry.children@),
                        ));
                    }
                    out.push(entry);
                    proof {
                        assert forall|a: int, b: int| 0 <= a < b < out@.len() implies (
                        #[trigger] out@[a]).end_line < (#[trigger] out@[b]).start_line by {
                            if b == before.len() && a < before.len() - 1 {
                                assert(before[a].end_line < before[before.len() - 1].start_line);
                                assert(before[before.len() - 1].well_formed());
                            }
                        }
                        assert(entry_views(out@) =~= entry_views(before).push(entry_view(entry)));
                    }
                }
            },
            None => {
                collect_declarations(child, lines, depth + 1, lo, hi, in_type, out);
            },
        }
        i += 1;
    }
}

/// The outline entries of a file: the declarations of its syntax tree, nested
/// as in the source.
///
/// Every entry has a range of lines that begin at one or later; children lie
/// inside their parents; siblings are in source order and share no line.
pub fn outline_entries(root: &SyntaxNode, content: &str) -> (entries: Vec<OutlineEntry>)
    ensures
        is_outline(entries@, 1, u32::MAX),
        entry_views(entries@) == outline_of(
            *root,
            crate::bytes::byte_lines(vstd::utf8::encode_utf8(content@)),
        ),
{
    let lines = split_byte_lines(content.as_bytes());
    let mut entries: Vec<OutlineEntry> = Vec::new();
    assert(entry_views(entries@) =~= Seq::<EntryView>::empty());
    collect_declarations(root, &lines, 0, 1, u32::MAX, false, &mut entries);
    entries
}

// ---------------------------------------------------------------------------
// Rendering
// ---------------------------------------------------------------------------

/// The range of an entry in brackets.
pub open spec fn range_text(start: u32, end: u32) -> Seq<char> {
    "["@ + decimal(start as nat) + "-"@ + decimal(end as nat) + "] "@
}

/// The line for one entry: its range, two spaces of indent per level, its
/// name, and its signature behind two spaces.
pub open spec fn entry_line(e: EntryView, level: nat) -> Seq<char> {
    range_text(e.start_line, e.end_line) + repeat(' ', 2 * level) + e.name + (match e.signature {
        Some(s) => "  "@ + s,
        None => Seq::empty(),
    })
}

/// The lines for an entry and what is below it, down to level three.
pub open spec fn entry_lines(e: EntryView, level: nat) -> Seq<char>
    decreases e, e.children.len() + 1,
{
    if level < MAX_OUTLINE_DEPTH {
        entry_line(e, level) + children_lines(e, level + 1, e.children.len() as int)
    } else {
        entry_line(e, level)
    }
}

/// The lines for the first `n` children of an entry, each behind a line
/// feed.
pub open spec fn children_lines(e: EntryView, level: nat, n: int) -> Seq<char>
    decreases e, n,
{
    if n <= 0 || n > e.children.len() {
        Seq::empty()
    } else {
        children_lines(e, level, n - 1) + "\n"@ + entry_lines(e.children[n - 1], level)
    }
}

/// The number of imports in front of everything else.
pub open spec fn leading_imports(entries: Seq<EntryView>) -> int
    decreases entries.len(),
{
    if entries.len() == 0 || entries[0].kind != OutlineKind::Import {
        0
    } else {
        1 + leading_imports(entries.drop_first())
    }
}

/// The lines for the entries `from..n`, each behind a line feed unless it is
/// the first line of the outline.
pub open spec fn outline_rows(entries: Seq<EntryView>, from: int, n: int, first: bool) -> Seq<char>
    decreases n - from,
{
    if n <= from {
        Seq::empty()
    } else {
        outline_rows(entries, from, n - 1, first) + (if first && n - 1 == from {
            Seq::empty()
        } else {
            "\n"@
        }) + entry_lines(entries[n - 1], 0)
    }
}

/// The outline as text: the imports in front collapsed to one line, then an
/// entry per line, children indented below their parents.
pub open spec fn outline_text(entries: Seq<EntryView>) -> Seq<char> {
    let k = leading_imports(entries);
    if k > 0 {
        range_text(entries[0].start_line, entries[k - 1].end_line) + "imports"@ + outline_rows(
            entries,
            k,
            entries.len() as int,
            false,
        )
    } else {
        outline_rows(entries, 0, entries.len() as int, true)
    }
}

fn push_range(out: &mut String, start: u32, end: u32)
    ensures
        final(out)@ == old(out)@ + range_text(start, end),
{
    push_str(out, "[");
    push_decimal(out, start as u64);
    push_str(out, "-");
    push_decimal(out, end as u64);
    push_str(out, "] ");
    assert(out@ =~= old(out)@ + range_text(start, end));
}

fn push_entry(out: &mut String, e: &OutlineEntry, level: usize)
    requires
        level <= MAX_OUTLINE_DEPTH,
    ensures
        final(out)@ == old(out)@ + entry_lines(entry_view(*e), level as nat),
    decreases e,
{
    let ghost v = entry_view(*e);
    proof {
        lemma_children_views(*e, e.children@.len() as int);
    }
    push_range(out, e.start_line, e.end_line);
    push_repeat(out, ' ', 2 * level);
    push_str(out, e.name.as_str());
    match &e.signature {
        Some(s) => {
            push_str(out, "  ");
            push_str(out, s.as_str());
        },
        None => {},
    }
    assert(out@ =~= old(out)@ + entry_line(v, level as nat));
    if level >= MAX_OUTLINE_DEPTH {
        return ;
    }
    let ghost head = out@;
    let mut i: usize = 0;
    assert(head + children_lines(v, (level + 1) as nat, 0) =~= head);
    while i < e.children.len()
        invariant
            i <= e.children@.len(),
            level < MAX_OUTLINE_DEPTH,
            v.children == entry_views(e.children@),
            out@ == head + children_lines(v, (level + 1) as nat, i as int),
        decreases e.children@.len() - i,
    {
        push_str(out, "\n");
        push_entry(out, &e.children[i], level + 1);
        i += 1;
        assert(out@ =~= head + children_lines(v, (level + 1) as nat, i as int));
    }
    assert(out@ =~= old(out)@ + entry_lines(v, level as nat));
}

fn count_leading_imports(entries: &Vec<OutlineEntry>) -> (k: usize)
    ensures
        k == leading_imports(entry_views(entries@)),
        k <= entries@.len(),
{
    let ghost views = entry_views(entries@);
    let mut k: usize = 0;
    assert(views.skip(0) =~= views);
    while k < entries.len()
        invariant
            k <= entries@.len(),
            views == entry_views(entries@),
            leading_imports(views) == k + leading_imports(views.skip(k as int)),
        ensures
            k <= entries@.len(),
            leading_imports(views) == k,
        decreases entries@.len() - k,
    {
        assert(views.skip(k as int)[0] == views[k as int]);
        let is_import = match entries[k].kind {
            OutlineKind::Import => true,
            _ => false,
        };
        if !is_import {
            break;
        }
        assert(views.skip(k as int).drop_first() =~= views.skip(k + 1));
        k += 1;
    }
    assert(views.skip(views.len() as int).len() == 0);
    k
}

/// Renders an outline: the imports in front on one line, then an entry per
/// line as `[start-end] name  signature`, children indented below their
/// parents.
pub fn render_outline(entries: &Vec<OutlineEntry>) -> (text: String)
    ensures
        text@ == outline_text(entry_views(entries@)),
{
    let ghost views = entry_views(entries@);
    let k = count_leading_imports(entries);
    let mut out = String::new();
    if k > 0 {
        push_range(&mut out, entries[0].start_line, entries[k - 1].end_line);
        push_str(&mut out, "imports");
    }
    let first = k == 0;
    let ghost head = out@;
    let mut i: usize = k;
    assert(head + outline_rows(views, k as int, k as int, first) =~= head);
    while i < entries.len()
        invariant
            k <= i <= entries@.len(),
            first == (k == 0),
            views == entry_views(entries@),
            out@ == head + outline_rows(views, k as int, i as int, first),
        decreases entries@.len() - i,
    {
        if !(first && i == k) {
            push_str(&mut out, "\n");
        }
        push_entry(&mut out, &entries[i], 0);
        i += 1;
        assert(out@ =~= head + outline_rows(views, k as int, i as int, first));
    }
    assert(out@ =~= outline_text(views));
    out
}

/// The outline of a code file as text, from its syntax tree.
pub fn code_outline(root: &SyntaxNode, content: &str) -> (text: String)
    ensures
        text@ == outline_text(
            outline_of(*root, crate::bytes::byte_lines(vstd::utf8::encode_utf8(content@))),
        ),
{
    let entries = outline_entries(root, content);
    render_outline(&entries)
}

} // verus!
