//! The directory map: a tree of directories and files, one per line.

use vstd::prelude::*;

use crate::search::glob::{preview_text, token_preview};
use crate::search::siblings::{deduplicated, name_order, sort_and_dedup};
use crate::order::sorted;
use crate::text::{join, join_strings, push_repeat, push_str, repeat, string_views};

verus! {

/// One line of a map.
pub struct MapEntry {
    /// How deep below the root the entry lies; the root's entries lie at 0.
    pub depth: usize,
    pub name: String,
    pub is_dir: bool,
    /// The names that the file defines, where it is code that could be read.
    pub symbols: Vec<String>,
    /// The size of the file, if its metadata could be read.
    pub byte_len: Option<u64>,
}

/// What a line says of its entry: of a file that defines names, the names;
/// of another file, its estimated tokens; of a directory, nothing.
pub open spec fn summary_text(e: MapEntry) -> Option<Seq<char>> {
    if e.is_dir {
        None
    } else if e.symbols@.len() > 0 {
        Some(join(string_views(e.symbols@), ", "@))
    } else {
        match e.byte_len {
            Some(n) => Some(preview_text(n)),
            None => None,
        }
    }
}

/// What a line says of its entry.
pub fn entry_summary(e: &MapEntry) -> (r: Option<String>)
    ensures
        crate::types::opt_string_view(r) == summary_text(*e),
{
    if e.is_dir {
        None
    } else if e.symbols.len() > 0 {
        Some(join_strings(&e.symbols, ", "))
    } else {
        match e.byte_len {
            Some(n) => Some(token_preview(n)),
            None => None,
        }
    }
}

/// The names of a directory in the order in which a map lists them.
pub fn ordered_names(names: Vec<String>) -> (r: Vec<String>)
    ensures
        string_views(r@) == deduplicated(string_views(sorted(names@, name_order()))),
{
    sort_and_dedup(names)
}

/// The depth that indentation shows at most.
pub const MAX_INDENT: usize = 64;

/// The line for one entry: two spaces per level, the name, a slash behind
/// a directory, and behind a colon what the line says of the entry.
pub open spec fn map_line(e: MapEntry) -> Seq<char> {
    repeat(
        ' ',
        (2 * (if e.depth > MAX_INDENT {
            MAX_INDENT
        } else {
            e.depth
        })) as nat,
    ) + e.name@ + (if e.is_dir {
        "/"@
    } else {
        Seq::empty()
    }) + (match summary_text(e) {
        Some(s) => ": "@ + s,
        None => Seq::empty(),
    })
}

/// The lines for the first `n` entries, each behind a line feed.
pub open spec fn map_lines(entries: Seq<MapEntry>, n: int) -> Seq<char>
    decreases n,
{
    if n <= 0 {
        Seq::empty()
    } else {
        map_lines(entries, n - 1) + "\n"@ + map_line(entries[n - 1])
    }
}

/// The map of a scope: a header, then a line per entry.
pub open spec fn map_text(scope: Seq<char>, entries: Seq<MapEntry>) -> Seq<char> {
    "# Map: "@ + scope + map_lines(entries, entries.len() as int)
}

/// Renders the map of a scope from its entries, which come in the order of
/// a walk through the tree.
pub fn render_map(scope: &str, entries: &Vec<MapEntry>) -> (text: String)
    ensures
        text@ == map_text(scope@, entries@),
{
    let mut out = String::new();
    push_str(&mut out, "# Map: ");
    push_str(&mut out, scope);
    let ghost head = out@;
    let mut i: usize = 0;
    assert(head + map_lines(entries@, 0) =~= head);
    while i < entries.len()
        invariant
            i <= entries@.len(),
            out@ == head + map_lines(entries@, i as int),
        decreases entries@.len() - i,
    {
        let e = &entries[i];
        let ghost before = out@;
        push_str(&mut out, "\n");
        let depth = if e.depth > MAX_INDENT {
            MAX_INDENT
        } else {
            e.depth
        };
        push_repeat(&mut out, ' ', 2 * depth);
        push_str(&mut out, e.name.as_str());
        if e.is_dir {
            push_str(&mut out, "/");
        }
        match entry_summary(e) {
            Some(s) => {
                push_str(&mut out, ": ");
                push_str(&mut out, s.as_str());
            },
            None => {},
        }
        assert(out@ =~= before + "\n"@ + map_line(*e));
        i += 1;
    }
    out
}

} // verus!
