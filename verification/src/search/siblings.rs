//! Siblings: the fields and methods of a definition's parent that the
//! definition refers to.

use vstd::prelude::*;

use tree_sitter::Language;

use crate::index::symbol::line_of;
use crate::order::{by_key, ints, sort_by_keys, sorted};
use crate::syntax::{query_matches, query_result, Capture, QueryHit};
use crate::text::{str_eq, string_views, to_chars};
use crate::types::{Lang, OutlineEntry, OutlineKind};

verus! {

/// A field or method of the same parent, found by name.
#[derive(Debug)]
pub struct ResolvedSibling {
    pub name: String,
    pub kind: OutlineKind,
    pub signature: String,
    pub start_line: u32,
    pub end_line: u32,
}

/// The most siblings that are shown.
pub const MAX_SIBLINGS: usize = 6;

/// The query that finds references to members of the enclosing object in
/// source of `lang`, if the language has one. Each pattern captures the name
/// of the member as `ref`; where the object is an identifier it is captured
/// too, as `obj` or, for a receiver, as `recv`.
pub open spec fn sibling_query(lang: Lang) -> Option<Seq<char>> {
    match lang {
        Lang::Rust => Some(
            "(field_expression value: (self) field: (field_identifier) @ref)\n(call_expression function: (field_expression value: (self) field: (field_identifier) @ref))\n"@,
        ),
        Lang::Python => Some(
            "(attribute object: (identifier) @obj attribute: (identifier) @ref)\n"@,
        ),
        Lang::TypeScript | Lang::JavaScript | Lang::Tsx => Some(
            "(member_expression object: (this) property: (property_identifier) @ref)\n"@,
        ),
        Lang::Java => Some(
            "(field_access object: (this) field: (identifier) @ref)\n(method_invocation object: (this) name: (identifier) @ref)\n"@,
        ),
        Lang::Go => Some(
            "(selector_expression operand: (identifier) @recv field: (field_identifier) @ref)\n"@,
        ),
        _ => None,
    }
}

/// The query that finds references to members of the enclosing object in
/// source of `lang`, if the language has one.
pub fn sibling_query_str(lang: Lang) -> (q: Option<&'static str>)
    ensures
        match q {
            Some(text) => sibling_query(lang) == Some(text@),
            None => sibling_query(lang).is_none(),
        },
        q.is_some() == (lang == Lang::Rust || lang == Lang::Python || lang == Lang::TypeScript
            || lang == Lang::JavaScript || lang == Lang::Tsx || lang == Lang::Java || lang
            == Lang::Go),
{
    match lang {
        Lang::Rust => Some(
            "(field_expression value: (self) field: (field_identifier) @ref)\n(call_expression function: (field_expression value: (self) field: (field_identifier) @ref))\n",
        ),
        Lang::Python => Some(
            "(attribute object: (identifier) @obj attribute: (identifier) @ref)\n",
        ),
        Lang::TypeScript | Lang::JavaScript | Lang::Tsx => Some(
            "(member_expression object: (this) property: (property_identifier) @ref)\n",
        ),
        Lang::Java => Some(
            "(field_access object: (this) field: (identifier) @ref)\n(method_invocation object: (this) name: (identifier) @ref)\n",
        ),
        Lang::Go => Some(
            "(selector_expression operand: (identifier) @recv field: (field_identifier) @ref)\n",
        ),
        _ => None,
    }
}

/// The index of the first child named `name`, or the number of children if
/// there is none.
pub open spec fn first_named(children: Seq<OutlineEntry>, name: Seq<char>) -> int
    decreases children.len(),
{
    if children.len() == 0 || children[0].name@ == name {
        0
    } else {
        1 + first_named(children.drop_first(), name)
    }
}

/// The sibling that stands for `child` under the name `name`: the child's
/// signature, or its name where it has none, and its range.
pub open spec fn sibling_of(name: String, child: OutlineEntry) -> ResolvedSibling {
    ResolvedSibling {
        name,
        kind: child.kind,
        signature: match child.signature {
            Some(s) => s,
            None => child.name,
        },
        start_line: child.start_line,
        end_line: child.end_line,
    }
}

/// The siblings found for `names`, in the order of the names: for each name
/// the first child that bears it, if any.
pub open spec fn found_siblings(names: Seq<String>, children: Seq<OutlineEntry>) -> Seq<
    ResolvedSibling,
>
    decreases names.len(),
{
    if names.len() == 0 {
        Seq::empty()
    } else {
        let k = first_named(children, names.last()@);
        let rest = found_siblings(names.drop_last(), children);
        if 0 <= k < children.len() {
            rest.push(sibling_of(names.last(), children[k]))
        } else {
            rest
        }
    }
}

/// The characters of a name as numbers.
pub open spec fn name_key(name: Seq<char>) -> Seq<int> {
    Seq::new(name.len(), |i: int| (name[i] as u32) as int)
}

/// The sort key of a sibling: zero for a function or method and one for
/// anything else, then the name. Functions and methods come first, and each
/// group is in the order of the names.
pub open spec fn sibling_key(s: ResolvedSibling) -> Seq<int> {
    seq![if s.kind.is_callable() {
        0int
    } else {
        1int
    }] + name_key(s.name@)
}

/// The order of siblings, as a relation.
pub open spec fn sibling_order() -> spec_fn(ResolvedSibling, ResolvedSibling) -> bool {
    by_key(|s: ResolvedSibling| sibling_key(s))
}

/// The first `n` items of `s`, or all of them if there are fewer.
pub open spec fn at_most<T>(s: Seq<T>, n: int) -> Seq<T> {
    if s.len() > n {
        s.take(n)
    } else {
        s
    }
}

/// The siblings to show for the referenced `names` among `children`: those
/// found, ordered, and cut to six.
pub open spec fn resolved_siblings(names: Seq<String>, children: Seq<OutlineEntry>) -> Seq<
    ResolvedSibling,
> {
    at_most(sorted(found_siblings(names, children), sibling_order()), MAX_SIBLINGS as int)
}

/// The first child named `name`, if any.
fn find_named(children: &Vec<OutlineEntry>, name: &str) -> (r: Option<usize>)
    ensures
        match r {
            Some(k) => k < children@.len() && first_named(children@, name@) == k,
            None => first_named(children@, name@) >= children@.len(),
        },
{
    let mut i: usize = 0;
    assert(children@.skip(0) =~= children@);
    while i < children.len()
        invariant
            i <= children.len(),
            first_named(children@, name@) == i + first_named(children@.skip(i as int), name@),
        decreases children.len() - i,
    {
        if str_eq(children[i].name.as_str(), name) {
            return Some(i);
        }
        assert(children@.skip(i as int).drop_first() =~= children@.skip(i + 1));
        i += 1;
    }
    None
}

/// The sort key of a sibling.
fn sibling_sort_key(s: &ResolvedSibling) -> (key: Vec<u32>)
    ensures
        ints(key@) == sibling_key(*s),
{
    let chars = to_chars(s.name.as_str());
    let mut key: Vec<u32> = Vec::new();
    let first: u32 = if s.kind.callable() {
        0
    } else {
        1
    };
    key.push(first);
    let mut i: usize = 0;
    while i < chars.len()
        invariant
            i <= chars.len(),
            key@.len() == i + 1,
            key@[0] == first,
            forall|j: int| 0 <= j < i ==> key@[j + 1] == chars@[j] as u32,
        decreases chars.len() - i,
    {
        let ch: char = chars[i];
        key.push(ch as u32);
        i += 1;
    }
    assert(ints(key@) =~= sibling_key(*s));
    key
}

/// Matches the names that a definition refers to against the children of its
/// parent.
///
/// Each name stands for the first child that bears it. Functions and methods
/// come first, then the rest, each group by name; at most six are returned.
pub fn resolve_siblings(sibling_names: &Vec<String>, parent_children: &Vec<OutlineEntry>) -> (resolved:
    Vec<ResolvedSibling>)
    ensures
        resolved@ == resolved_siblings(sibling_names@, parent_children@),
{
    let mut found: Vec<ResolvedSibling> = Vec::new();
    let mut i: usize = 0;
    assert(sibling_names@.take(0) =~= Seq::<String>::empty());
    while i < sibling_names.len()
        invariant
            i <= sibling_names.len(),
            found@ == found_siblings(sibling_names@.take(i as int), parent_children@),
        decreases sibling_names.len() - i,
    {
        let name = &sibling_names[i];
        proof {
            assert(sibling_names@.take(i + 1).drop_last() =~= sibling_names@.take(i as int));
            assert(sibling_names@.take(i + 1).last() == *name);
        }
        match find_named(parent_children, name.as_str()) {
            Some(k) => {
                let child = &parent_children[k];
                let signature = match &child.signature {
                    Some(s) => s.clone(),
                    None => child.name.clone(),
                };
                found.push(
                    ResolvedSibling {
                        name: name.clone(),
                        kind: child.kind,
                        signature,
                        start_line: child.start_line,
                        end_line: child.end_line,
                    },
                );
            },
            None => {},
        }
        i += 1;
    }
    assert(sibling_names@.take(sibling_names.len() as int) =~= sibling_names@);
    let mut keys: Vec<Vec<u32>> = Vec::new();
    let mut j: usize = 0;
    while j < found.len()
        invariant
            j <= found.len(),
            keys@.len() == j,
            forall|k: int| 0 <= k < j ==> ints(#[trigger] keys@[k]@) == sibling_key(found@[k]),
        decreases found.len() - j,
    {
        keys.push(sibling_sort_key(&found[j]));
        j += 1;
    }
    sort_by_keys(&mut found, keys, Ghost(|s: ResolvedSibling| sibling_key(s)));
    if found.len() > MAX_SIBLINGS {
        found.truncate(MAX_SIBLINGS);
    }
    found
}

/// Whether some child of `entry` begins at `line`.
pub open spec fn has_child_at(entry: OutlineEntry, line: u32) -> bool {
    exists|j: int| 0 <= j < entry.children@.len() && (#[trigger] entry.children@[j]).start_line == line
}

/// The index of the first entry that has a child beginning at `line`, or the
/// number of entries if there is none.
pub open spec fn first_parent(entries: Seq<OutlineEntry>, line: u32) -> int
    decreases entries.len(),
{
    if entries.len() == 0 || has_child_at(entries[0], line) {
        0
    } else {
        1 + first_parent(entries.drop_first(), line)
    }
}

/// Finds the entry whose children hold a member that begins at
/// `method_line`: the first such entry, if there is one.
pub fn find_parent_entry(entries: &Vec<OutlineEntry>, method_line: u32) -> (parent: Option<
    &OutlineEntry,
>)
    ensures
        match parent {
            Some(e) => 0 <= first_parent(entries@, method_line) < entries@.len() && *e
                == entries@[first_parent(entries@, method_line)],
            None => first_parent(entries@, method_line) >= entries@.len(),
        },
{
    let mut i: usize = 0;
    assert(entries@.skip(0) =~= entries@);
    while i < entries.len()
        invariant
            i <= entries.len(),
            first_parent(entries@, method_line) == i + first_parent(
                entries@.skip(i as int),
                method_line,
            ),
        decreases entries.len() - i,
    {
        let entry = &entries[i];
        let mut j: usize = 0;
        while j < entry.children.len()
            invariant
                i < entries.len(),
                *entry == entries@[i as int],
                j <= entry.children@.len(),
                first_parent(entries@, method_line) == i + first_parent(
                    entries@.skip(i as int),
                    method_line,
                ),
                forall|k: int|
                    0 <= k < j ==> (#[trigger] entry.children@[k]).start_line != method_line,
            decreases entry.children.len() - j,
        {
            if entry.children[j].start_line == method_line {
                assert(has_child_at(entries@[i as int], method_line));
                assert(entries@.skip(i as int)[0] == entries@[i as int]);
                return Some(entry);
            }
            j += 1;
        }
        assert(!has_child_at(entries@[i as int], method_line));
        assert(entries@.skip(i as int)[0] == entries@[i as int]);
        assert(entries@.skip(i as int).drop_first() =~= entries@.skip(i + 1));
        i += 1;
    }
    assert(entries@.skip(entries@.len() as int).len() == 0);
    None
}

// ---------------------------------------------------------------------------
// References to siblings
// ---------------------------------------------------------------------------

/// The query that finds the receiver of the first method of a Go file.
pub const GO_RECEIVER_QUERY: &'static str =
    "(method_declaration receiver: (parameter_list (parameter_declaration name: (identifier) @recv)))";

/// Whether a capture is the capture `name` with the text `text`.
pub open spec fn captures_text(c: Capture, name: Seq<char>, text: Seq<char>) -> bool {
    c.name@ == name && c.text.is_some() && c.text.unwrap()@ == text
}

/// Whether a match has a capture `name` with the text `text`.
pub open spec fn has_capture(hit: QueryHit, name: Seq<char>, text: Seq<char>) -> bool {
    exists|i: int| 0 <= i < hit.captures@.len() && captures_text(#[trigger] hit.captures@[i], name, text)
}

/// Whether a match refers to the enclosing object: always in languages that
/// name it by a keyword; in Python if the object is `self`; in Go if the
/// operand is the receiver, which must be known.
pub open spec fn on_own_object(hit: QueryHit, lang: Lang, receiver: Option<Seq<char>>) -> bool {
    if lang == Lang::Python {
        has_capture(hit, "obj"@, "self"@)
    } else if lang == Lang::Go {
        receiver.is_some() && has_capture(hit, "recv"@, receiver.unwrap())
    } else {
        true
    }
}

/// Whether a capture names a member inside the lines of a definition.
pub open spec fn is_reference(c: Capture, range: (u32, u32)) -> bool {
    c.name@ == "ref"@ && range.0 <= line_of(c.row) <= range.1 && c.text.is_some()
}

/// The member names among the first `n` captures of a match.
pub open spec fn hit_references(hit: QueryHit, range: (u32, u32), n: int) -> Seq<Seq<char>>
    decreases n,
{
    if n <= 0 {
        Seq::empty()
    } else if is_reference(hit.captures@[n - 1], range) {
        hit_references(hit, range, n - 1).push(hit.captures@[n - 1].text.unwrap()@)
    } else {
        hit_references(hit, range, n - 1)
    }
}

/// The member names that the first `n` matches refer to on the enclosing
/// object, inside the lines of a definition, in the order of the matches.
pub open spec fn all_references(
    hits: Seq<QueryHit>,
    lang: Lang,
    receiver: Option<Seq<char>>,
    range: (u32, u32),
    n: int,
) -> Seq<Seq<char>>
    decreases n,
{
    if n <= 0 {
        Seq::empty()
    } else if on_own_object(hits[n - 1], lang, receiver) {
        all_references(hits, lang, receiver, range, n - 1) + hit_references(
            hits[n - 1],
            range,
            hits[n - 1].captures@.len() as int,
        )
    } else {
        all_references(hits, lang, receiver, range, n - 1)
    }
}

/// `s` without the items that equal the item in front of them.
pub open spec fn deduplicated(s: Seq<Seq<char>>) -> Seq<Seq<char>>
    decreases s.len(),
{
    if s.len() == 0 {
        Seq::empty()
    } else if s.len() >= 2 && s[s.len() - 1] == s[s.len() - 2] {
        deduplicated(s.drop_last())
    } else {
        deduplicated(s.drop_last()).push(s.last())
    }
}

/// The order of names, as a relation.
pub open spec fn name_order() -> spec_fn(String, String) -> bool {
    by_key(|s: String| name_key(s@))
}

fn hit_has_capture(hit: &QueryHit, name: &str, text: &str) -> (b: bool)
    ensures
        b == has_capture(*hit, name@, text@),
{
    let mut i: usize = 0;
    while i < hit.captures.len()
        invariant
            i <= hit.captures@.len(),
            forall|j: int| 0 <= j < i ==> !captures_text(#[trigger] hit.captures@[j], name@, text@),
        decreases hit.captures@.len() - i,
    {
        let c = &hit.captures[i];
        let matches = str_eq(c.name.as_str(), name) && match &c.text {
            Some(t) => str_eq(t.as_str(), text),
            None => false,
        };
        if matches {
            return true;
        }
        i += 1;
    }
    false
}

/// The member names that the matches of a member query refer to on the
/// enclosing object, inside the lines `def_range`, in the order of the
/// matches.
pub fn collect_references(hits: &Vec<QueryHit>, lang: Lang, receiver: &Option<String>, def_range: (
    u32,
    u32,
)) -> (names: Vec<String>)
    ensures
        string_views(names@) == all_references(
            hits@,
            lang,
            match receiver {
                Some(r) => Some(r@),
                None => None,
            },
            def_range,
            hits@.len() as int,
        ),
{
    let ghost recv = match receiver {
        Some(r) => Some(r@),
        None => None,
    };
    let mut names: Vec<String> = Vec::new();
    let mut i: usize = 0;
    assert(string_views(names@) =~= Seq::<Seq<char>>::empty());
    while i < hits.len()
        invariant
            i <= hits@.len(),
            recv == (match receiver {
                Some(r) => Some(r@),
                None => None,
            }),
            string_views(names@) == all_references(hits@, lang, recv, def_range, i as int),
        decreases hits@.len() - i,
    {
        let hit = &hits[i];
        let own = match lang {
            Lang::Python => hit_has_capture(hit, "obj", "self"),
            Lang::Go => match receiver {
                Some(r) => hit_has_capture(hit, "recv", r.as_str()),
                None => false,
            },
            _ => true,
        };
        assert(own == on_own_object(*hit, lang, recv));
        if own {
            let ghost before = string_views(names@);
            let mut j: usize = 0;
            assert(before + hit_references(*hit, def_range, 0) =~= before);
            while j < hit.captures.len()
                invariant
                    j <= hit.captures@.len(),
                    string_views(names@) == before + hit_references(*hit, def_range, j as int),
                decreases hit.captures@.len() - j,
            {
                let c = &hit.captures[j];
                let ghost so_far = string_views(names@);
                if str_eq(c.name.as_str(), "ref") {
                    let line = if c.row >= u32::MAX as usize {
                        u32::MAX
                    } else {
                        (c.row + 1) as u32
                    };
                    if def_range.0 <= line && line <= def_range.1 {
                        match &c.text {
                            Some(t) => {
                                names.push(t.clone());
                                assert(string_views(names@) =~= so_far.push(t@));
                            },
                            None => {},
                        }
                    }
                }
                j += 1;
                assert(string_views(names@) =~= before + hit_references(*hit, def_range, j as int));
            }
        }
        i += 1;
    }
    names
}

/// Sorts names and removes repetitions.
pub fn sort_and_dedup(names: Vec<String>) -> (r: Vec<String>)
    ensures
        string_views(r@) == deduplicated(string_views(sorted(names@, name_order()))),
{
    let mut items = names;
    let mut keys: Vec<Vec<u32>> = Vec::new();
    let mut k: usize = 0;
    while k < items.len()
        invariant
            k <= items.len(),
            keys@.len() == k,
            forall|j: int| 0 <= j < k ==> ints(#[trigger] keys@[j]@) == name_key(items@[j]@),
        decreases items.len() - k,
    {
        let chars = to_chars(items[k].as_str());
        let mut key: Vec<u32> = Vec::new();
        let mut c: usize = 0;
        while c < chars.len()
            invariant
                c <= chars.len(),
                key@.len() == c,
                forall|x: int| 0 <= x < c ==> key@[x] == chars@[x] as u32,
            decreases chars.len() - c,
        {
            let ch: char = chars[c];
            key.push(ch as u32);
            c += 1;
        }
        assert(ints(key@) =~= name_key(items@[k as int]@));
        keys.push(key);
        k += 1;
    }
    sort_by_keys(&mut items, keys, Ghost(|s: String| name_key(s@)));
    let ghost all = string_views(items@);
    let mut r: Vec<String> = Vec::new();
    let mut i: usize = 0;
    assert(all.take(0) =~= Seq::<Seq<char>>::empty());
    assert(string_views(r@) =~= Seq::<Seq<char>>::empty());
    while i < items.len()
        invariant
            i <= items.len(),
            all == string_views(items@),
            string_views(r@) == deduplicated(all.take(i as int)),
        decreases items.len() - i,
    {
        let ghost before = string_views(r@);
        proof {
            assert(all.take(i + 1).drop_last() =~= all.take(i as int));
            assert(all.take(i + 1).last() == items@[i as int]@);
            if i > 0 {
                assert(all.take(i + 1)[i - 1] == items@[i - 1]@);
            }
        }
        let repeated = i > 0 && str_eq(items[i].as_str(), items[i - 1].as_str());
        if !repeated {
            r.push(items[i].clone());
            assert(string_views(r@) =~= before.push(items@[i as int]@));
        }
        i += 1;
    }
    assert(all.take(all.len() as int) =~= all);
    r
}

/// The receiver of the first method that a receiver query matched: the text
/// of the first capture `recv` of the first match.
pub open spec fn first_receiver(hits: Seq<QueryHit>) -> Option<Seq<char>> {
    if hits.len() == 0 {
        None
    } else {
        let k = first_named_capture(hits[0].captures@, "recv"@);
        if 0 <= k < hits[0].captures@.len() {
            match hits[0].captures@[k].text {
                Some(t) => Some(t@),
                None => None,
            }
        } else {
            None
        }
    }
}

/// The index of the first capture named `name`, or the number of captures.
pub open spec fn first_named_capture(captures: Seq<Capture>, name: Seq<char>) -> int
    decreases captures.len(),
{
    if captures.len() == 0 || captures[0].name@ == name {
        0
    } else {
        1 + first_named_capture(captures.drop_first(), name)
    }
}

/// Picks the receiver name from the matches of the receiver query.
pub fn pick_receiver(hits: &Vec<QueryHit>) -> (r: Option<String>)
    ensures
        match r {
            Some(t) => first_receiver(hits@) == Some(t@),
            None => first_receiver(hits@).is_none(),
        },
{
    if hits.len() == 0 {
        return None;
    }
    let captures = &hits[0].captures;
    let mut i: usize = 0;
    assert(captures@.skip(0) =~= captures@);
    while i < captures.len()
        invariant
            i <= captures@.len(),
            hits@.len() > 0,
            captures@ == hits@[0].captures@,
            first_named_capture(captures@, "recv"@) == i + first_named_capture(
                captures@.skip(i as int),
                "recv"@,
            ),
        decreases captures@.len() - i,
    {
        assert(captures@.skip(i as int)[0] == captures@[i as int]);
        if str_eq(captures[i].name.as_str(), "recv") {
            let r = crate::types::clone_opt_string(&captures[i].text);
            assert(first_named_capture(captures@, "recv"@) == i);
            assert(r == captures@[i as int].text);
            return r;
        }
        assert(captures@.skip(i as int).drop_first() =~= captures@.skip(i + 1));
        i += 1;
    }
    assert(captures@.skip(captures@.len() as int).len() == 0);
    None
}

/// For a Go file, the name of the receiver of its first method: what the
/// first match of the receiver query captures as `recv`; none where the
/// query finds nothing or cannot be run.
pub open spec fn go_receiver(language: Language, content: Seq<char>) -> Option<Seq<char>> {
    match query_result(language, GO_RECEIVER_QUERY@, content) {
        Some(hits) => first_receiver(hits),
        None => None,
    }
}

/// For a Go file, the name of the receiver of its first method.
pub fn extract_go_receiver_name(content: &str, language: &Language) -> (r: Option<String>)
    ensures
        crate::types::opt_string_view(r) == go_receiver(*language, content@),
{
    match query_matches(language, GO_RECEIVER_QUERY, content) {
        Some(hits) => pick_receiver(&hits),
        None => None,
    }
}

/// Whether `names` are the member names that the matches `hits` refer to
/// inside the lines `range`: in the order of the names, each once.
pub open spec fn is_references_of(
    names: Seq<String>,
    hits: Seq<QueryHit>,
    lang: Lang,
    receiver: Option<Seq<char>>,
    range: (u32, u32),
) -> bool {
    exists|found: Seq<String>|
        string_views(found) == all_references(hits, lang, receiver, range, hits.len() as int)
            && string_views(names) == deduplicated(
            string_views(#[trigger] sorted(found, name_order())),
        )
}

/// The member names that the matches of a member query refer to on the
/// enclosing object inside the lines `def_range`, sorted and without
/// repetitions.
pub fn references_of(hits: &Vec<QueryHit>, lang: Lang, receiver: &Option<String>, def_range: (
    u32,
    u32,
)) -> (names: Vec<String>)
    ensures
        is_references_of(names@, hits@, lang, crate::types::opt_string_view(*receiver), def_range),
{
    let found = collect_references(hits, lang, receiver, def_range);
    sort_and_dedup(found)
}

/// The name by which a definition in `lang` refers to its own object, where
/// that is not fixed by the language: for Go, the receiver of the first
/// method of the file.
pub open spec fn receiver_in(lang: Lang, language: Language, content: Seq<char>) -> Option<
    Seq<char>,
> {
    if lang == Lang::Go {
        go_receiver(language, content)
    } else {
        None
    }
}

/// Extracts the names of the members of its own object that a definition
/// refers to, sorted and without repetitions.
///
/// There are none for a language without grammar or member query, or where
/// the content cannot be parsed. Else they are what the matches of the
/// member query of the language give.
pub fn extract_sibling_references(
    content: &str,
    lang: Lang,
    def_range: (u32, u32),
    language: Option<&Language>,
) -> (names: Vec<String>)
    ensures
        language.is_none() || sibling_query(lang).is_none() ==> names@.len() == 0,
        language.is_some() && sibling_query(lang).is_some() ==> match query_result(
            *language.unwrap(),
            sibling_query(lang).unwrap(),
            content@,
        ) {
            None => names@.len() == 0,
            Some(hits) => is_references_of(
                names@,
                hits,
                lang,
                receiver_in(lang, *language.unwrap(), content@),
                def_range,
            ),
        },
{
    let grammar = match language {
        Some(g) => g,
        None => {
            return Vec::new();
        },
    };
    let source = match sibling_query_str(lang) {
        Some(q) => q,
        None => {
            return Vec::new();
        },
    };
    let receiver = match lang {
        Lang::Go => extract_go_receiver_name(content, grammar),
        _ => None,
    };
    let hits = match query_matches(grammar, source, content) {
        Some(h) => h,
        None => {
            return Vec::new();
        },
    };
    references_of(&hits, lang, &receiver, def_range)
}

} // verus!
