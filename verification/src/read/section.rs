//! Sections of a file by line range, and directory listings.

use vstd::prelude::*;
use vstd::slice::slice_subrange;

use crate::bytes::{line_offsets, line_starts, lossy_text, text_lossy};
use crate::edit::{hashline_section, hashlined_from};
use crate::error::TilthError;
use crate::format::{file_header, file_header_text, number_lines, number_lines_text};
use crate::order::{by_key, ints, sort_by_keys, sorted};
use crate::paths::{first_index, lemma_first_index};
use crate::text::{
    decimal, find_char, join, join_strings, parse_unsigned, push_decimal, push_str, slice_chars,
    string_views, to_chars, trim, trim_chars, unsigned_value,
};
use crate::types::{estimate_tokens, token_estimate, ViewMode};

verus! {

/// The line range that `s` stands for: `start-end`, both 1-indexed, with
/// `1 <= start <= end`. Spaces around either number are ignored.
pub open spec fn range_of(s: Seq<char>) -> Option<(usize, usize)> {
    let dash = first_index(s, '-');
    if dash < 0 || dash >= s.len() {
        None
    } else {
        match unsigned_value(trim(s.take(dash)), usize::MAX as nat) {
            None => None,
            Some(start) => match unsigned_value(trim(s.skip(dash + 1)), usize::MAX as nat) {
                None => None,
                Some(end) => if start == 0 || end < start {
                    None
                } else {
                    Some((start as usize, end as usize))
                },
            },
        }
    }
}

/// Parses a line range such as `45-89`.
pub fn parse_range(s: &str) -> (r: Option<(usize, usize)>)
    ensures
        r == range_of(s@),
{
    let chars = to_chars(s);
    let dash = match find_char(&chars, '-', 0) {
        Some(d) => {
            proof {
                lemma_first_index(chars@, '-', d as int);
            }
            d
        },
        None => {
            proof {
                lemma_first_index(chars@, '-', chars@.len() as int);
            }
            return None;
        },
    };
    let a = slice_chars(&chars, 0, dash);
    let b = slice_chars(&chars, dash + 1, chars.len());
    assert(a@ =~= chars@.take(dash as int));
    assert(b@ =~= chars@.skip(dash + 1));
    let start = match parse_unsigned(&trim_chars(&a), usize::MAX as u64) {
        Some(v) => v as usize,
        None => {
            return None;
        },
    };
    let end = match parse_unsigned(&trim_chars(&b), usize::MAX as u64) {
        Some(v) => v as usize,
        None => {
            return None;
        },
    };
    if start == 0 || end < start {
        return None;
    }
    Some((start, end))
}

/// The number of lines of `buf`: one more than it has line feeds.
pub open spec fn line_count_of(buf: Seq<u8>) -> nat {
    1 + line_starts(buf, 0).len()
}

/// Where line `k` (0-indexed) of `buf` begins.
pub open spec fn line_start(buf: Seq<u8>, k: int) -> int {
    if k <= 0 {
        0
    } else {
        line_starts(buf, 0)[k - 1]
    }
}

/// The bytes of the lines `start..=end` (1-indexed) of `buf`, as far as they
/// exist; `None` if none of them exists.
pub open spec fn section_bytes(buf: Seq<u8>, start: usize, end: usize) -> Option<Seq<u8>> {
    let total = line_count_of(buf);
    let s = if start - 1 < total {
        start - 1
    } else {
        total as int
    };
    let e = if end < total {
        end as int
    } else {
        total as int
    };
    if s >= e {
        None
    } else {
        let from = line_start(buf, s);
        let to = if e < total {
            line_start(buf, e)
        } else {
            buf.len() as int
        };
        Some(buf.subrange(from, to))
    }
}

/// The number of lines from `start` to `end` that exist in a file of `total`
/// lines.
pub open spec fn section_lines(total: nat, start: usize, end: usize) -> int {
    (if end < total {
        end as int
    } else {
        total as int
    }) - (if start - 1 < total {
        start - 1
    } else {
        total as int
    })
}

/// What a request for a section leads to.
pub enum SectionOutcome {
    /// The range cannot be read as `start-end`.
    BadRange,
    /// The file has no line in the range; it has `total` lines.
    OutOfBounds { total: nat },
    /// The header of the section and its numbered lines.
    Text { text: Seq<char> },
}

/// What a request for the section `range` of a file with content `buf` leads
/// to.
pub open spec fn section_outcome(path: Seq<char>, buf: Seq<u8>, range: Seq<char>, edit_mode: bool) -> SectionOutcome {
    match range_of(range) {
        None => SectionOutcome::BadRange,
        Some(r) => match section_bytes(buf, r.0, r.1) {
            None => SectionOutcome::OutOfBounds { total: line_count_of(buf) },
            Some(bytes) => {
                let selected = lossy_text(bytes);
                SectionOutcome::Text {
                    text: file_header_text(
                        path,
                        vstd::utf8::encode_utf8(selected).len() as usize as u64,
                        section_lines(line_count_of(buf), r.0, r.1) as u32,
                        ViewMode::Section,
                    ) + "\n\n"@ + (if edit_mode {
                        hashlined_from(selected, r.0 as nat)
                    } else {
                        number_lines_text(selected, r.0 as u32)
                    }),
                }
            },
        },
    }
}

/// The reason given for a range that cannot be read.
pub open spec fn bad_range_reason() -> Seq<char> {
    "expected format: \"start-end\" (e.g. \"45-89\")"@
}

/// The reason given for a range outside of the file.
pub open spec fn out_of_bounds_reason(total: nat) -> Seq<char> {
    "range out of bounds (file has "@ + decimal(total) + " lines)"@
}

/// Whether `result` is what `outcome` asks for.
pub open spec fn is_section_result(result: Result<String, TilthError>, outcome: SectionOutcome, range: Seq<char>) -> bool {
    match outcome {
        SectionOutcome::BadRange => result matches Err(TilthError::InvalidQuery { query, reason })
            && query@ == range && reason@ == bad_range_reason(),
        SectionOutcome::OutOfBounds { total } => result matches Err(
            TilthError::InvalidQuery { query, reason },
        ) && query@ == range && reason@ == out_of_bounds_reason(total),
        SectionOutcome::Text { text } => result matches Ok(t) && t@ == text,
    }
}

/// Reads the lines of a range from the content of a file: a header for the
/// section, then the lines behind their numbers, or, in edit mode, behind
/// their anchors.
///
/// The range is rejected if it cannot be read as `start-end` or if the file
/// has none of its lines. A range that runs past the end of the file is cut
/// there.
pub fn read_section(path: &str, buf: &[u8], range: &str, edit_mode: bool) -> (result: Result<
    String,
    TilthError,
>)
    ensures
        is_section_result(result, section_outcome(path@, buf@, range@, edit_mode), range@),
{
    let (start, end) = match parse_range(range) {
        Some(r) => r,
        None => {
            return Err(
                TilthError::InvalidQuery {
                    query: range.to_owned(),
                    reason: "expected format: \"start-end\" (e.g. \"45-89\")".to_owned(),
                },
            );
        },
    };
    let offsets = line_offsets(buf);
    let total = offsets.len();
    assert(total == line_count_of(buf@));
    let s: usize = if start - 1 < total {
        start - 1
    } else {
        total
    };
    let e: usize = if end < total {
        end
    } else {
        total
    };
    if s >= e {
        let mut reason = String::new();
        push_str(&mut reason, "range out of bounds (file has ");
        push_decimal(&mut reason, total as u64);
        push_str(&mut reason, " lines)");
        assert(reason@ =~= out_of_bounds_reason(total as nat));
        return Err(TilthError::InvalidQuery { query: range.to_owned(), reason });
    }
    let start_byte = offsets[s];
    let end_byte = if e < offsets.len() {
        offsets[e]
    } else {
        buf.len()
    };
    assert(start_byte == line_start(buf@, s as int));
    assert(start_byte <= end_byte);
    let selected = text_lossy(slice_subrange(buf, start_byte, end_byte));
    let byte_len = selected.as_str().len() as u64;
    let line_count = #[verifier::truncate]
    ((e - s) as u32);
    let header = file_header(path, byte_len, line_count, ViewMode::Section);
    let body = if edit_mode {
        hashline_section(selected.as_str(), start)
    } else {
        number_lines(
            selected.as_str(),
            #[verifier::truncate]
            (start as u32),
        )
    };
    let mut out = header;
    push_str(&mut out, "\n\n");
    push_str(&mut out, body.as_str());
    Ok(out)
}

// ---------------------------------------------------------------------------
// Directories
// ---------------------------------------------------------------------------

/// What kind of thing a directory entry is.
#[derive(Clone, Copy, Debug, PartialEq, Eq, Structural)]
pub enum EntryKind {
    Directory,
    Symlink,
    Other,
}

/// One entry of a directory.
pub struct DirEntry {
    pub name: String,
    pub kind: EntryKind,
    /// The size of the entry, if its metadata could be read.
    pub byte_len: Option<u64>,
}

/// The sort key of an entry: the characters of its name.
pub open spec fn entry_key(e: DirEntry) -> Seq<int> {
    Seq::new(e.name@.len(), |i: int| (e.name@[i] as u32) as int)
}

/// The line for one entry: its name behind two spaces, then a slash for a
/// directory, an arrow for a symlink, and a token estimate for anything else
/// whose size is known.
pub open spec fn entry_text(e: DirEntry) -> Seq<char> {
    "  "@ + e.name@ + (match e.kind {
        EntryKind::Directory => "/"@,
        EntryKind::Symlink => " →"@,
        EntryKind::Other => match e.byte_len {
            Some(n) => "  ("@ + decimal(token_estimate(n) as nat) + " tokens)"@,
            None => Seq::empty(),
        },
    })
}

/// The lines for the first `n` entries.
pub open spec fn entry_lines(entries: Seq<DirEntry>, n: int) -> Seq<Seq<char>>
    decreases n,
{
    if n <= 0 {
        Seq::empty()
    } else {
        entry_lines(entries, n - 1).push(entry_text(entries[n - 1]))
    }
}

/// The listing of a directory: a header with the number of entries, then the
/// entries by name.
pub open spec fn directory_text(path: Seq<char>, entries: Seq<DirEntry>) -> Seq<char> {
    let ordered = sorted(entries, by_key(|e: DirEntry| entry_key(e)));
    "# "@ + path + " ("@ + decimal(entries.len()) + " items)\n\n"@ + join(
        entry_lines(ordered, ordered.len() as int),
        "\n"@,
    )
}

fn entry_sort_key(e: &DirEntry) -> (key: Vec<u32>)
    ensures
        ints(key@) == entry_key(*e),
{
    let chars = to_chars(e.name.as_str());
    let mut key: Vec<u32> = Vec::new();
    let mut i: usize = 0;
    while i < chars.len()
        invariant
            i <= chars.len(),
            key@.len() == i,
            forall|j: int| 0 <= j < i ==> key@[j] == chars@[j] as u32,
        decreases chars.len() - i,
    {
        let ch: char = chars[i];
        key.push(ch as u32);
        i += 1;
    }
    assert(ints(key@) =~= entry_key(*e));
    key
}

/// Lists the entries of a directory, by name.
pub fn list_directory(path: &str, entries: Vec<DirEntry>) -> (text: String)
    ensures
        text@ == directory_text(path@, entries@),
{
    let mut items = entries;
    let count = items.len();
    let mut keys: Vec<Vec<u32>> = Vec::new();
    let mut j: usize = 0;
    while j < items.len()
        invariant
            j <= items.len(),
            keys@.len() == j,
            forall|k: int| 0 <= k < j ==> ints(#[trigger] keys@[k]@) == entry_key(items@[k]),
        decreases items.len() - j,
    {
        keys.push(entry_sort_key(&items[j]));
        j += 1;
    }
    sort_by_keys(&mut items, keys, Ghost(|e: DirEntry| entry_key(e)));
    proof {
        crate::order::lemma_by_key_asymmetric(|e: DirEntry| entry_key(e));
        crate::order::lemma_sorted_in_order(entries@, by_key(|e: DirEntry| entry_key(e)));
    }
    let mut lines: Vec<String> = Vec::new();
    let mut i: usize = 0;
    assert(string_views(lines@) =~= entry_lines(items@, 0));
    while i < items.len()
        invariant
            i <= items.len(),
            string_views(lines@) == entry_lines(items@, i as int),
        decreases items.len() - i,
    {
        let e = &items[i];
        let ghost before = string_views(lines@);
        let mut line = String::new();
        push_str(&mut line, "  ");
        push_str(&mut line, e.name.as_str());
        match e.kind {
            EntryKind::Directory => {
                push_str(&mut line, "/");
            },
            EntryKind::Symlink => {
                push_str(&mut line, " →");
            },
            EntryKind::Other => match e.byte_len {
                Some(n) => {
                    push_str(&mut line, "  (");
                    push_decimal(&mut line, estimate_tokens(n));
                    push_str(&mut line, " tokens)");
                },
                None => {},
            },
        }
        assert(line@ =~= entry_text(*e));
        lines.push(line);
        assert(string_views(lines@) =~= before.push(entry_text(*e)));
        i += 1;
    }
    let mut out = String::new();
    push_str(&mut out, "# ");
    push_str(&mut out, path);
    push_str(&mut out, " (");
    push_decimal(&mut out, count as u64);
    push_str(&mut out, " items)\n\n");
    let body = join_strings(&lines, "\n");
    push_str(&mut out, body.as_str());
    assert(out@ =~= directory_text(path@, entries@));
    out
}

} // verus!
