//! Callees: what a definition calls, and which definition each call means.
//!
//! Names come from the call expressions inside a definition. Each name is
//! resolved to one definition of the index, the nearest to the calling file.
//! The callees of callees are attached while a shared budget lasts.

use vstd::prelude::*;

use crate::bytes::{byte_texts, split_byte_lines};
use crate::index::symbol::{line_of, location_views, LocationView, SymbolLocation};
use crate::paths::{is_same_path, same_path};
use crate::search::package::{known_dirs, package_root, package_root_of, same_dir};
use crate::search::render::{Callee, CalleeNode};
use crate::search::strip::is_word;
use crate::search::treesitter::{
    child_by_field, field_index, node_text, node_text_simple,
};
use crate::syntax::SyntaxNode;
use crate::text::{contains, contains_sub, str_eq, string_views, texts, to_chars};
use crate::types::{clone_opt_string, opt_string_view, OutlineEntry};

verus! {

/// The most callees of callees that one expansion lists.
pub const SECOND_HOP_BUDGET: usize = 15;

/// Whether a node of this kind is a call.
pub open spec fn call_kind(kind: Seq<char>) -> bool {
    kind == "call_expression"@ || kind == "call"@ || kind == "method_invocation"@
}

/// The field that names what a call of this kind calls.
pub open spec fn callee_field(kind: Seq<char>) -> Seq<char> {
    if kind == "method_invocation"@ {
        "name"@
    } else {
        "function"@
    }
}

/// The index of the last of the first `n` children that names a member: it
/// fills the field `field`, `property`, `attribute` or `name`. `-1` if there
/// is none.
pub open spec fn member_index(children: Seq<SyntaxNode>, n: int) -> int
    decreases n,
{
    if n <= 0 {
        -1
    } else if member_field(children[n - 1]) {
        n - 1
    } else {
        member_index(children, n - 1)
    }
}

/// Whether a node names a member of what stands in front of it.
pub open spec fn member_field(node: SyntaxNode) -> bool {
    node.field.is_some() && (node.field.unwrap()@ == "field"@ || node.field.unwrap()@
        == "property"@ || node.field.unwrap()@ == "attribute"@ || node.field.unwrap()@ == "name"@)
}

/// The name that a call calls: the identifier in its callee field, or the
/// member name of a member or path expression there.
pub open spec fn call_name(node: SyntaxNode, lines: Seq<Seq<u8>>) -> Option<Seq<char>> {
    if !call_kind(node.kind@) {
        None
    } else {
        let k = field_index(node.children@, callee_field(node.kind@));
        if 0 <= k < node.children@.len() {
            let target = node.children@[k];
            if contains_sub(target.kind@, "identifier"@) {
                Some(node_text(target, lines))
            } else {
                let j = member_index(target.children@, target.children@.len() as int);
                if 0 <= j < target.children@.len() {
                    Some(node_text(target.children@[j], lines))
                } else {
                    None
                }
            }
        } else {
            None
        }
    }
}

/// Whether a node begins inside the range of lines, if there is one.
pub open spec fn in_range(node: SyntaxNode, range: Option<(u32, u32)>) -> bool {
    match range {
        Some(r) => r.0 <= line_of(node.start_row) <= r.1,
        None => true,
    }
}

/// The name that a node calls, if it is a call with a name inside the range.
pub open spec fn own_call(node: SyntaxNode, lines: Seq<Seq<u8>>, range: Option<(u32, u32)>) -> Seq<
    Seq<char>,
> {
    match call_name(node, lines) {
        Some(n) => if in_range(node, range) && n.len() > 0 {
            seq![n]
        } else {
            Seq::empty()
        },
        None => Seq::empty(),
    }
}

/// The names called at a node and below it, in the order of the text.
pub open spec fn calls_in(node: SyntaxNode, lines: Seq<Seq<u8>>, range: Option<(u32, u32)>) -> Seq<
    Seq<char>,
>
    decreases node, node.children@.len() + 1,
{
    own_call(node, lines, range) + calls_below(node, lines, range, node.children@.len() as int)
}

/// The names called at the first `n` children of a node and below them.
pub open spec fn calls_below(
    node: SyntaxNode,
    lines: Seq<Seq<u8>>,
    range: Option<(u32, u32)>,
    n: int,
) -> Seq<Seq<char>>
    decreases node, n,
{
    if n <= 0 || n > node.children@.len() {
        Seq::empty()
    } else {
        calls_below(node, lines, range, n - 1) + calls_in(node.children@[n - 1], lines, range)
    }
}

/// `s` without repetitions: every item where it stands first.
pub open spec fn first_occurrences(s: Seq<Seq<char>>) -> Seq<Seq<char>>
    decreases s.len(),
{
    if s.len() == 0 {
        Seq::empty()
    } else if first_occurrences(s.drop_last()).contains(s.last()) {
        first_occurrences(s.drop_last())
    } else {
        first_occurrences(s.drop_last()).push(s.last())
    }
}

fn last_member(target: &SyntaxNode) -> (r: Option<usize>)
    ensures
        match r {
            Some(j) => j < target.children@.len() && member_index(
                target.children@,
                target.children@.len() as int,
            ) == j,
            None => member_index(target.children@, target.children@.len() as int) == -1,
        },
{
    let mut n: usize = target.children.len();
    while n > 0
        invariant
            n <= target.children@.len(),
            member_index(target.children@, target.children@.len() as int) == member_index(
                target.children@,
                n as int,
            ),
        decreases n,
    {
        let child = &target.children[n - 1];
        let named = match &child.field {
            Some(f) => {
                let w = to_chars(f.as_str());
                is_word(&w, "field") || is_word(&w, "property") || is_word(&w, "attribute")
                    || is_word(&w, "name")
            },
            None => false,
        };
        if named {
            return Some(n - 1);
        }
        n -= 1;
    }
    None
}

fn name_of_call(node: &SyntaxNode, lines: &Vec<Vec<u8>>) -> (r: Option<String>)
    ensures
        match r {
            Some(n) => call_name(*node, byte_texts(lines@)) == Some(n@),
            None => call_name(*node, byte_texts(lines@)).is_none(),
        },
{
    let kind = to_chars(node.kind.as_str());
    let is_method = is_word(&kind, "method_invocation");
    if !(is_word(&kind, "call_expression") || is_word(&kind, "call") || is_method) {
        return None;
    }
    let target = match child_by_field(
        node,
        if is_method {
            "name"
        } else {
            "function"
        },
    ) {
        Some(t) => t,
        None => {
            return None;
        },
    };
    let target_kind = to_chars(target.kind.as_str());
    if contains(&target_kind, "identifier") {
        return Some(node_text_simple(target, lines));
    }
    match last_member(target) {
        Some(j) => Some(node_text_simple(&target.children[j], lines)),
        None => None,
    }
}

fn collect_calls(
    node: &SyntaxNode,
    lines: &Vec<Vec<u8>>,
    range: Option<(u32, u32)>,
    out: &mut Vec<String>,
)
    ensures
        string_views(final(out)@) == string_views(old(out)@) + calls_in(
            *node,
            byte_texts(lines@),
            range,
        ),
    decreases node,
{
    let ghost start = string_views(out@);
    let ghost ls = byte_texts(lines@);
    match name_of_call(node, lines) {
        Some(name) => {
            let line = if node.start_row >= u32::MAX as usize {
                u32::MAX
            } else {
                (node.start_row + 1) as u32
            };
            let inside = match range {
                Some(r) => r.0 <= line && line <= r.1,
                None => true,
            };
            if inside && !name.as_str().is_empty() {
                out.push(name);
                assert(string_views(out@) =~= start.push(name@));
            }
        },
        None => {},
    }
    let ghost own = string_views(out@);
    assert(own =~= start + own_call(*node, ls, range));
    let mut i: usize = 0;
    assert(own + calls_below(*node, ls, range, 0) =~= own);
    while i < node.children.len()
        invariant
            i <= node.children@.len(),
            ls == byte_texts(lines@),
            string_views(out@) == own + calls_below(*node, ls, range, i as int),
        decreases node.children@.len() - i,
    {
        collect_calls(&node.children[i], lines, range, out);
        i += 1;
        assert(string_views(out@) =~= own + calls_below(*node, ls, range, i as int));
    }
    assert(string_views(out@) =~= start + calls_in(*node, ls, range));
}

fn holds(names: &Vec<String>, name: &str) -> (b: bool)
    ensures
        b == string_views(names@).contains(name@),
{
    let mut i: usize = 0;
    while i < names.len()
        invariant
            i <= names@.len(),
            forall|j: int| 0 <= j < i ==> names@[j]@ != name@,
        decreases names@.len() - i,
    {
        if str_eq(names[i].as_str(), name) {
            assert(string_views(names@)[i as int] == name@);
            return true;
        }
        i += 1;
    }
    assert forall|j: int| 0 <= j < string_views(names@).len() implies string_views(names@)[j]
        != name@ by {
        assert(string_views(names@)[j] == names@[j]@);
    }
    false
}

/// The names that the definition at `def_range` calls, each once, in the
/// order in which they first occur.
pub fn extract_callee_names(root: &SyntaxNode, content: &str, def_range: Option<(u32, u32)>) -> (names:
    Vec<String>)
    ensures
        string_views(names@) == first_occurrences(
            calls_in(
                *root,
                crate::bytes::byte_lines(vstd::utf8::encode_utf8(content@)),
                def_range,
            ),
        ),
{
    let lines = split_byte_lines(content.as_bytes());
    let mut all: Vec<String> = Vec::new();
    assert(string_views(all@) =~= Seq::<Seq<char>>::empty());
    collect_calls(root, &lines, def_range, &mut all);
    let ghost calls = string_views(all@);
    assert(calls =~= calls_in(*root, byte_texts(lines@), def_range));
    let mut names: Vec<String> = Vec::new();
    let mut i: usize = 0;
    assert(calls.take(0) =~= Seq::<Seq<char>>::empty());
    assert(string_views(names@) =~= Seq::<Seq<char>>::empty());
    while i < all.len()
        invariant
            i <= all@.len(),
            calls == string_views(all@),
            string_views(names@) == first_occurrences(calls.take(i as int)),
        decreases all@.len() - i,
    {
        let ghost before = string_views(names@);
        proof {
            assert(calls.take(i + 1).drop_last() =~= calls.take(i as int));
            assert(calls.take(i + 1).last() == all@[i as int]@);
        }
        if !holds(&names, all[i].as_str()) {
            names.push(all[i].clone());
            assert(string_views(names@) =~= before.push(all@[i as int]@));
        }
        i += 1;
    }
    assert(calls.take(calls.len() as int) =~= calls);
    names
}

// ---------------------------------------------------------------------------
// Resolution
// ---------------------------------------------------------------------------

/// How near a definition is to the calling file: 0 in the same file, 1 in
/// the same package, 2 elsewhere.
pub open spec fn nearness(loc: LocationView, host: Seq<char>, known: Set<Seq<Seq<char>>>) -> int {
    if is_same_path(loc.path, host) {
        0
    } else if package_root_of(host, known).is_some() && package_root_of(loc.path, known)
        == package_root_of(host, known) {
        1
    } else {
        2
    }
}

/// Whether the `k`-th location is the one that a call means: a definition,
/// no other definition is nearer to the calling file, and none before it is
/// as near.
pub open spec fn is_choice(
    locations: Seq<LocationView>,
    host: Seq<char>,
    known: Set<Seq<Seq<char>>>,
    k: int,
) -> bool {
    &&& 0 <= k < locations.len()
    &&& locations[k].is_definition
    &&& forall|j: int|
        0 <= j < locations.len() && (#[trigger] locations[j]).is_definition ==> nearness(
            locations[k],
            host,
            known,
        ) <= nearness(locations[j], host, known)
    &&& forall|j: int|
        0 <= j < k && (#[trigger] locations[j]).is_definition ==> nearness(
            locations[k],
            host,
            known,
        ) < nearness(locations[j], host, known)
}

/// Chooses the definition that a call from the file `host` means: the one in
/// the same file if there is one, else one in the same package, else any;
/// the first of several that are as near.
pub fn choose_definition(locations: &Vec<SymbolLocation>, host: &str, known: &Vec<Vec<Vec<char>>>) -> (r:
    Option<usize>)
    ensures
        match r {
            Some(k) => is_choice(location_views(locations@), host@, known_dirs(known@), k as int),
            None => forall|j: int|
                0 <= j < locations@.len() ==> !(#[trigger] locations@[j]).is_definition,
        },
{
    let host_root = package_root(host, known);
    let ghost views = location_views(locations@);
    let ghost dirs = known_dirs(known@);
    let mut best: Option<(usize, u8)> = None;
    let mut i: usize = 0;
    while i < locations.len()
        invariant
            i <= locations@.len(),
            views == location_views(locations@),
            dirs == known_dirs(known@),
            match host_root {
                Some(h) => package_root_of(host@, dirs) == Some(texts(h@)),
                None => package_root_of(host@, dirs).is_none(),
            },
            match best {
                Some((k, rank)) => {
                    &&& k < i
                    &&& views[k as int].is_definition
                    &&& rank == nearness(views[k as int], host@, dirs)
                    &&& forall|j: int|
                        0 <= j < i && (#[trigger] views[j]).is_definition ==> rank <= nearness(
                            views[j],
                            host@,
                            dirs,
                        )
                    &&& forall|j: int|
                        0 <= j < k && (#[trigger] views[j]).is_definition ==> rank < nearness(
                            views[j],
                            host@,
                            dirs,
                        )
                },
                None => forall|j: int| 0 <= j < i ==> !(#[trigger] views[j]).is_definition,
            },
        decreases locations@.len() - i,
    {
        let loc = &locations[i];
        assert(views[i as int] == loc@);
        if loc.is_definition {
            let rank: u8 = if same_path(loc.path.as_str(), host) {
                0
            } else if host_root.is_some() && same_dir(
                &package_root(loc.path.as_str(), known),
                &host_root,
            ) {
                1
            } else {
                2
            };
            assert(rank == nearness(views[i as int], host@, dirs));
            match best {
                Some((_, held)) => {
                    if rank < held {
                        best = Some((i, rank));
                    }
                },
                None => {
                    best = Some((i, rank));
                },
            }
        }
        i += 1;
    }
    match best {
        Some((k, _)) => Some(k),
        None => {
            assert forall|j: int| 0 <= j < locations@.len() implies !(
            #[trigger] locations@[j]).is_definition by {
                assert(views[j] == locations@[j]@);
            }
            None
        },
    }
}

// ---------------------------------------------------------------------------
// Locating a callee
// ---------------------------------------------------------------------------

/// The first entry that begins at `line`, in the order of the text, at or
/// below `e`.
pub open spec fn entry_within(e: OutlineEntry, line: u32) -> Option<OutlineEntry>
    decreases e, e.children@.len() + 1,
{
    if e.start_line == line {
        Some(e)
    } else {
        entry_below(e, line, 0)
    }
}

/// The first entry that begins at `line` at or below the children of `e`
/// from the `from`-th on.
pub open spec fn entry_below(e: OutlineEntry, line: u32, from: int) -> Option<OutlineEntry>
    decreases e, e.children@.len() - from,
{
    if from < 0 || from >= e.children@.len() {
        None
    } else {
        match entry_within(e.children@[from], line) {
            Some(found) => Some(found),
            None => entry_below(e, line, from + 1),
        }
    }
}

/// The first entry that begins at `line` at or below the entries from the
/// `from`-th on.
pub open spec fn entry_at(entries: Seq<OutlineEntry>, line: u32, from: int) -> Option<
    OutlineEntry,
>
    decreases entries.len() - from,
{
    if from < 0 || from >= entries.len() {
        None
    } else {
        match entry_within(entries[from], line) {
            Some(found) => Some(found),
            None => entry_at(entries, line, from + 1),
        }
    }
}

fn find_within(e: &OutlineEntry, line: u32) -> (r: Option<&OutlineEntry>)
    ensures
        match r {
            Some(found) => entry_within(*e, line) == Some(*found),
            None => entry_within(*e, line).is_none(),
        },
    decreases e,
{
    if e.start_line == line {
        return Some(e);
    }
    let mut i: usize = 0;
    while i < e.children.len()
        invariant
            i <= e.children@.len(),
            e.start_line != line,
            entry_within(*e, line) == entry_below(*e, line, i as int),
        decreases e.children@.len() - i,
    {
        match find_within(&e.children[i], line) {
            Some(found) => {
                return Some(found);
            },
            None => {},
        }
        i += 1;
    }
    None
}

/// Finds the first entry of an outline that begins at `line`, in the order
/// of the text.
pub fn find_entry(entries: &Vec<OutlineEntry>, line: u32) -> (r: Option<&OutlineEntry>)
    ensures
        match r {
            Some(found) => entry_at(entries@, line, 0) == Some(*found),
            None => entry_at(entries@, line, 0).is_none(),
        },
{
    let mut i: usize = 0;
    while i < entries.len()
        invariant
            i <= entries@.len(),
            entry_at(entries@, line, 0) == entry_at(entries@, line, i as int),
        decreases entries@.len() - i,
    {
        match find_within(&entries[i], line) {
            Some(found) => {
                return Some(found);
            },
            None => {},
        }
        i += 1;
    }
    None
}

/// Whether `callee` is the definition of `name` at `location`, described
/// by the outline of its file: it ends where the entry that begins at its
/// line ends and has that entry's signature; without such an entry it is
/// one line without a signature.
pub open spec fn is_located(
    callee: Callee,
    name: Seq<char>,
    location: SymbolLocation,
    outline: Seq<OutlineEntry>,
) -> bool {
    &&& callee.name@ == name
    &&& callee.file@ == location.path@
    &&& callee.start_line == location.line
    &&& match entry_at(outline, location.line, 0) {
        Some(e) => callee.end_line == e.end_line && opt_string_view(callee.signature)
            == opt_string_view(e.signature),
        None => callee.end_line == location.line && callee.signature.is_none(),
    }
}

/// Describes the definition of `name` at `location` by the outline of its
/// file.
pub fn located_callee(name: &str, location: &SymbolLocation, outline: &Vec<OutlineEntry>) -> (callee:
    Callee)
    ensures
        is_located(callee, name@, *location, outline@),
{
    match find_entry(outline, location.line) {
        Some(e) => Callee {
            name: name.to_owned(),
            file: location.path.clone(),
            start_line: location.line,
            end_line: e.end_line,
            signature: clone_opt_string(&e.signature),
        },
        None => Callee {
            name: name.to_owned(),
            file: location.path.clone(),
            start_line: location.line,
            end_line: location.line,
            signature: None,
        },
    }
}

/// Whether two callees are the same definition: same file, same line.
pub open spec fn same_callee(a: Callee, b: Callee) -> bool {
    a.start_line == b.start_line && is_same_path(a.file@, b.file@)
}

/// Whether a callee is among the callees that were visited.
pub open spec fn visited(seen: Seq<Callee>, c: Callee) -> bool {
    exists|i: int| 0 <= i < seen.len() && same_callee(#[trigger] seen[i], c)
}

/// The callees of callees that are attached: of the first `n` candidates, in
/// order, those that were not visited before, while the budget lasts.
pub open spec fn attached(candidates: Seq<Callee>, seen: Seq<Callee>, budget: nat, n: int) -> Seq<
    Callee,
>
    decreases n,
{
    if n <= 0 {
        Seq::empty()
    } else {
        let before = attached(candidates, seen, budget, n - 1);
        if before.len() < budget && !visited(seen + before, candidates[n - 1]) {
            before.push(candidates[n - 1])
        } else {
            before
        }
    }
}

fn is_visited(seen: &Vec<Callee>, c: &Callee) -> (b: bool)
    ensures
        b == visited(seen@, *c),
{
    let mut i: usize = 0;
    while i < seen.len()
        invariant
            i <= seen@.len(),
            forall|j: int| 0 <= j < i ==> !same_callee(#[trigger] seen@[j], *c),
        decreases seen@.len() - i,
    {
        if seen[i].start_line == c.start_line && same_path(seen[i].file.as_str(), c.file.as_str()) {
            return true;
        }
        i += 1;
    }
    false
}

fn copy_callee(c: &Callee) -> (r: Callee)
    ensures
        r == *c,
{
    Callee {
        name: c.name.clone(),
        file: c.file.clone(),
        start_line: c.start_line,
        end_line: c.end_line,
        signature: crate::types::clone_opt_string(&c.signature),
    }
}

/// Attaches to a callee what it calls in turn: the candidates that were not
/// visited before, in order, while the budget lasts. What is attached counts
/// as visited, and uses up the budget.
pub fn attach_children(
    callee: Callee,
    candidates: &Vec<Callee>,
    seen: &mut Vec<Callee>,
    budget: &mut usize,
) -> (node: CalleeNode)
    ensures
        node.callee == callee,
        node.children@ == attached(
            candidates@,
            old(seen)@,
            *old(budget) as nat,
            candidates@.len() as int,
        ),
        final(seen)@ == old(seen)@ + node.children@,
        *final(budget) == *old(budget) - node.children@.len(),
{
    let ghost seen0 = seen@;
    let ghost budget0 = *budget as nat;
    let mut children: Vec<Callee> = Vec::new();
    let mut i: usize = 0;
    assert(seen@ =~= seen0 + children@);
    while i < candidates.len()
        invariant
            i <= candidates@.len(),
            children@ == attached(candidates@, seen0, budget0, i as int),
            seen@ == seen0 + children@,
            *budget == budget0 - children@.len(),
            children@.len() <= budget0,
        decreases candidates@.len() - i,
    {
        let c = &candidates[i];
        if *budget > 0 && !is_visited(seen, c) {
            children.push(copy_callee(c));
            seen.push(copy_callee(c));
            *budget = *budget - 1;
            assert(seen@ =~= seen0 + children@);
        }
        i += 1;
    }
    CalleeNode { callee, children }
}

/// The callees that count as visited before the `n`-th callee gets its
/// children: all the callees themselves, and the children of the callees in
/// front of it.
pub open spec fn seen_before(first: Seq<Callee>, candidates: Seq<Vec<Callee>>, n: int) -> Seq<
    Callee,
>
    decreases n, 0int,
{
    if n <= 0 {
        first
    } else {
        seen_before(first, candidates, n - 1) + children_of(first, candidates, n - 1)
    }
}

/// The budget that is left before the `n`-th callee gets its children.
pub open spec fn budget_before(first: Seq<Callee>, candidates: Seq<Vec<Callee>>, n: int) -> nat
    decreases n, 0int,
{
    if n <= 0 {
        SECOND_HOP_BUDGET as nat
    } else {
        (budget_before(first, candidates, n - 1) - children_of(
            first,
            candidates,
            n - 1,
        ).len()) as nat
    }
}

/// The children of the `i`-th callee: of its candidates, those that were
/// not visited before, while the budget lasts. A callee without candidates
/// has none.
pub open spec fn children_of(first: Seq<Callee>, candidates: Seq<Vec<Callee>>, i: int) -> Seq<
    Callee,
>
    decreases i, 1int,
{
    if i < 0 || i >= candidates.len() {
        Seq::empty()
    } else {
        attached(
            candidates[i]@,
            seen_before(first, candidates, i),
            budget_before(first, candidates, i),
            candidates[i]@.len() as int,
        )
    }
}

/// Builds the tree of callees: each callee of the definition with what it
/// calls in turn. `candidates` holds, for each callee, the definitions that
/// it calls. No definition occurs twice in the tree, and all the callees of
/// callees together are fifteen at most.
pub fn callee_tree(first: &Vec<Callee>, candidates: &Vec<Vec<Callee>>) -> (nodes: Vec<CalleeNode>)
    ensures
        nodes@.len() == first@.len(),
        forall|i: int|
            0 <= i < first@.len() ==> (#[trigger] nodes@[i]).callee == first@[i]
                && nodes@[i].children@ == children_of(first@, candidates@, i),
{
    let mut seen: Vec<Callee> = Vec::new();
    let mut k: usize = 0;
    while k < first.len()
        invariant
            k <= first@.len(),
            seen@ == first@.take(k as int),
        decreases first@.len() - k,
    {
        seen.push(copy_callee(&first[k]));
        k += 1;
        assert(first@.take(k as int) =~= first@.take(k - 1).push(first@[k - 1]));
    }
    assert(first@.take(first@.len() as int) =~= first@);
    let mut budget: usize = SECOND_HOP_BUDGET;
    let none: Vec<Callee> = Vec::new();
    let mut nodes: Vec<CalleeNode> = Vec::new();
    let mut i: usize = 0;
    while i < first.len()
        invariant
            i <= first@.len(),
            none@.len() == 0,
            nodes@.len() == i,
            seen@ == seen_before(first@, candidates@, i as int),
            budget == budget_before(first@, candidates@, i as int),
            forall|j: int|
                0 <= j < i ==> (#[trigger] nodes@[j]).callee == first@[j] && nodes@[j].children@
                    == children_of(first@, candidates@, j),
        decreases first@.len() - i,
    {
        let own = if i < candidates.len() {
            &candidates[i]
        } else {
            &none
        };
        let node = attach_children(copy_callee(&first[i]), own, &mut seen, &mut budget);
        assert(node.children@ == children_of(first@, candidates@, i as int));
        nodes.push(node);
        i += 1;
    }
    nodes
}

} // verus!
