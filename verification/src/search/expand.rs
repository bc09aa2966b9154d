//! Expansion: the source of a match, rendered as a numbered code block.

use std::collections::HashSet;
use vstd::prelude::*;

use crate::paths::{pieces, split_on};
use crate::text::{
    contains, contains_sub, decimal, find_char, is_blank, join, join_chars, lines,
    padded_decimal, parse_unsigned, push_all, push_decimal, push_padded_decimal, push_str,
    slice_chars, split_lines, starts_with, texts, to_chars, trim, trim_chars, unsigned_value,
};
use crate::types::{estimate_tokens, token_estimate, Match};

verus! {

/// Up to this many estimated tokens a file is expanded whole.
pub const EXPAND_FULL_FILE_THRESHOLD: u64 = 800;

/// Whether a trimmed line looks like an import.
pub open spec fn import_line(t: Seq<char>) -> bool {
    "use "@.is_prefix_of(t) || "import "@.is_prefix_of(t) || "from "@.is_prefix_of(t)
        || "#include"@.is_prefix_of(t) || "require("@.is_prefix_of(t) || "require "@.is_prefix_of(
        t,
    ) || ("const "@.is_prefix_of(t) && contains_sub(t, "= require("@))
}

/// Executable form of [`import_line`].
pub fn is_import_line(trimmed: &Vec<char>) -> (b: bool)
    ensures
        b == import_line(trimmed@),
{
    starts_with(trimmed, "use ") || starts_with(trimmed, "import ") || starts_with(
        trimmed,
        "from ",
    ) || starts_with(trimmed, "#include") || starts_with(trimmed, "require(") || starts_with(
        trimmed,
        "require ",
    ) || (starts_with(trimmed, "const ") && contains(trimmed, "= require("))
}

/// The number of lines, as far as a `u32` can count them.
pub open spec fn line_total(ls: Seq<Seq<char>>) -> int {
    if ls.len() > u32::MAX {
        u32::MAX as int
    } else {
        ls.len() as int
    }
}

/// The lines that an expansion covers before leading imports are skipped:
/// the whole file if it is small, else the definition's range, or ten lines
/// to either side of a match without range; always inside the file.
pub open spec fn covered_range(m: Match, byte_len: usize, total: int) -> (int, int) {
    if token_estimate(byte_len as u64) <= EXPAND_FULL_FILE_THRESHOLD {
        (1, total)
    } else {
        let (s, e): (int, int) = match m.def_range {
            Some(r) => (r.0 as int, r.1 as int),
            None => (
                if m.line >= 10 {
                    m.line - 10
                } else {
                    0
                },
                if m.line + 10 > u32::MAX {
                    u32::MAX as int
                } else {
                    m.line + 10
                },
            ),
        };
        (
            if s < 1 {
                1
            } else {
                s
            },
            if e > total {
                total
            } else {
                e
            },
        )
    }
}

/// Whether line `i` (1-indexed) is neither blank nor an import.
pub open spec fn is_code_line(ls: Seq<Seq<char>>, i: int) -> bool {
    let t = trim(ls[i - 1]);
    !import_line(t) && t.len() > 0
}

/// The first line from `from` to `end` that is neither blank nor an import;
/// `start` if there is none.
pub open spec fn first_code_from(ls: Seq<Seq<char>>, start: int, from: int, end: int) -> int
    decreases end + 1 - from,
{
    if from > end || from > ls.len() || from < 1 {
        start
    } else if is_code_line(ls, from) {
        from
    } else {
        first_code_from(ls, start, from + 1, end)
    }
}

/// The first line that is shown: for a definition that begins within the
/// first five lines, the first line that is neither blank nor an import.
pub open spec fn shown_start(m: Match, ls: Seq<Seq<char>>, start: int, end: int) -> int {
    if m.is_definition && start <= 5 {
        first_code_from(ls, start, start, end)
    } else {
        start
    }
}

/// Whether line `i` is rendered: it exists, and it is not a blank line that
/// follows a blank line of the expansion.
pub open spec fn row_shown(ls: Seq<Seq<char>>, start: int, i: int) -> bool {
    1 <= i <= ls.len() && !(is_blank(ls[i - 1]) && i > start && is_blank(ls[i - 2]))
}

/// One rendered line: a line feed, the number right-aligned to four, a bar,
/// and the line.
pub open spec fn row_text(ls: Seq<Seq<char>>, i: int) -> Seq<char> {
    "\n"@ + padded_decimal(i as nat, 4) + " │ "@ + ls[i - 1]
}

/// The rendered lines `start..=upto`.
pub open spec fn rows_text(ls: Seq<Seq<char>>, start: int, upto: int) -> Seq<char>
    decreases upto + 1 - start,
{
    if upto < start {
        Seq::empty()
    } else if row_shown(ls, start, upto) {
        rows_text(ls, start, upto - 1) + row_text(ls, upto)
    } else {
        rows_text(ls, start, upto - 1)
    }
}

/// The code block for a match in a file with the given content: a fence with
/// path and range, the numbered lines, and a closing fence.
pub open spec fn code_block(m: Match, content: Seq<char>) -> Seq<char> {
    let ls = lines(content);
    let total = line_total(ls);
    let range = covered_range(m, vstd::utf8::encode_utf8(content).len() as usize, total);
    let start = shown_start(m, ls, range.0, range.1);
    "\n```"@ + m.path@ + ":"@ + decimal(start as nat) + "-"@ + decimal(range.1 as nat) + rows_text(
        ls,
        start,
        range.1,
    ) + "\n```"@
}

/// Renders the source of a match: the definition's lines, or the lines
/// around a usage, or the whole file if it is small.
pub fn expand_match(m: &Match, content: &str) -> (block: String)
    ensures
        block@ == code_block(*m, content@),
{
    let chars = to_chars(content);
    let ls = split_lines(&chars);
    let ghost all = lines(content@);
    let total: u32 = if ls.len() > u32::MAX as usize {
        u32::MAX
    } else {
        ls.len() as u32
    };
    let byte_len = content.len();
    let (mut start, end): (u32, u32) = if estimate_tokens(byte_len as u64)
        <= EXPAND_FULL_FILE_THRESHOLD {
        (1, total)
    } else {
        let (s, e): (u32, u32) = match m.def_range {
            Some(r) => r,
            None => (
                if m.line >= 10 {
                    m.line - 10
                } else {
                    0
                },
                if m.line > u32::MAX - 10 {
                    u32::MAX
                } else {
                    m.line + 10
                },
            ),
        };
        (
            if s < 1 {
                1
            } else {
                s
            },
            if e > total {
                total
            } else {
                e
            },
        )
    };
    assert((start as int, end as int) == covered_range(
        *m,
        vstd::utf8::encode_utf8(content@).len() as usize,
        line_total(all),
    ));
    let ghost range_start = start as int;
    if m.is_definition && start <= 5 && start <= end {
        let mut i: u64 = start as u64;
        let mut found: Option<u32> = None;
        while i <= end as u64 && i - 1 < ls.len() as u64
            invariant_except_break
                found.is_none(),
            invariant
                1 <= start <= i,
                i <= end + 1,
                texts(ls@) == all,
                first_code_from(all, start as int, start as int, end as int) == first_code_from(
                    all,
                    start as int,
                    i as int,
                    end as int,
                ),
            ensures
                found.is_some() ==> start <= found.unwrap() <= end,
                match found {
                    Some(f) => f == first_code_from(all, start as int, start as int, end as int),
                    None => start == first_code_from(all, start as int, start as int, end as int),
                },
            decreases end + 1 - i,
        {
            let trimmed = trim_chars(&ls[(i - 1) as usize]);
            if !is_import_line(&trimmed) && trimmed.len() > 0 {
                found = Some(i as u32);
                break;
            }
            i += 1;
        }
        match found {
            Some(f) => {
                start = f;
            },
            None => {},
        }
    }
    assert(start == shown_start(*m, all, range_start, end as int));
    let mut out = String::new();
    push_str(&mut out, "\n```");
    push_str(&mut out, m.path.as_str());
    push_str(&mut out, ":");
    push_decimal(&mut out, start as u64);
    push_str(&mut out, "-");
    push_decimal(&mut out, end as u64);
    let ghost head = out@;
    let mut prev_blank = false;
    let mut i: u64 = start as u64;
    assert(head + rows_text(all, start as int, start - 1) =~= head);
    while i <= end as u64
        invariant
            start <= i <= end + 1 || (i == start && start > end),
            1 <= start,
            texts(ls@) == all,
            out@ == head + rows_text(all, start as int, i - 1),
            prev_blank == (i > start && i - 2 < all.len() && is_blank(all[i - 2])),
        decreases end + 1 - i,
    {
        if i - 1 < ls.len() as u64 {
            let line = &ls[(i - 1) as usize];
            let blank = trim_chars(line).len() == 0;
            if !(blank && prev_blank) {
                let ghost before = out@;
                push_str(&mut out, "\n");
                push_padded_decimal(&mut out, i as u128, 4);
                push_str(&mut out, " │ ");
                push_all(&mut out, line);
                assert(out@ =~= before + row_text(all, i as int));
            }
            prev_blank = blank;
        } else {
            prev_blank = false;
        }
        i += 1;
    }
    push_str(&mut out, "\n```");
    proof {
        if start > end {
            assert(rows_text(all, start as int, end as int) =~= Seq::<char>::empty());
        }
        assert(out@ =~= code_block(*m, content@));
    }
    out
}

// ---------------------------------------------------------------------------
// Leaving lines out of a code block
// ---------------------------------------------------------------------------

/// The line that stands for `n` lines left out in a row.
pub open spec fn gap_marker(n: nat) -> Seq<char> {
    "       ... ("@ + decimal(n) + " lines omitted)"@
}

/// What a filter has kept so far, and how many lines it has left out since
/// the last line it kept.
pub struct Filtered {
    pub kept: Seq<Seq<char>>,
    pub skipped: nat,
}

/// The state once a run of lines left out has ended: a run of more than
/// three lines leaves a marker.
pub open spec fn flushed(state: Filtered) -> Filtered {
    if state.skipped > 3 {
        Filtered { kept: state.kept.push(gap_marker(state.skipped)), skipped: 0 }
    } else {
        Filtered { kept: state.kept, skipped: 0 }
    }
}

/// The line number that a rendered line carries in front of its bar, if any.
pub open spec fn segment_number(seg: Seq<char>) -> Option<nat> {
    let k = crate::paths::first_index(seg, '│');
    if k < 0 || k >= seg.len() {
        None
    } else {
        unsigned_value(trim(seg.take(k)), u32::MAX as nat)
    }
}

/// Whether a segment is always kept: a fence or an empty segment.
pub open spec fn always_kept(seg: Seq<char>) -> bool {
    "```"@.is_prefix_of(seg) || seg.len() == 0
}

/// Whether a segment is left out: it is a numbered line whose number is in
/// `skip`.
pub open spec fn left_out(seg: Seq<char>, skip: Set<u32>) -> bool {
    !always_kept(seg) && match segment_number(seg) {
        Some(n) => skip.contains(n as u32),
        None => false,
    }
}

/// The state after the first `n` segments.
pub open spec fn filter_fold(segs: Seq<Seq<char>>, skip: Set<u32>, n: int) -> Filtered
    decreases n,
{
    if n <= 0 {
        Filtered { kept: Seq::empty(), skipped: 0 }
    } else {
        let before = filter_fold(segs, skip, n - 1);
        let seg = segs[n - 1];
        if left_out(seg, skip) {
            Filtered { kept: before.kept, skipped: before.skipped + 1 }
        } else {
            Filtered { kept: flushed(before).kept.push(seg), skipped: 0 }
        }
    }
}

/// A code block without the lines whose numbers are in `skip`. Where more
/// than three lines in a row are left out, a marker says how many.
pub open spec fn filtered_code(code: Seq<char>, skip: Set<u32>) -> Seq<char> {
    let segs = pieces(code, '\n');
    join(filter_fold(segs, skip, segs.len() as int).kept, "\n"@)
}

/// Ends a run of lines left out: pushes a marker if the run was longer than
/// three lines, and resets the count.
pub fn flush_gap_marker(kept: &mut Vec<Vec<char>>, consecutive_skipped: &mut u64)
    ensures
        texts(final(kept)@) == flushed(
            (Filtered { kept: texts(old(kept)@), skipped: *old(consecutive_skipped) as nat }),
        ).kept,
        *final(consecutive_skipped) == 0,
{
    if *consecutive_skipped > 3 {
        let mut marker = String::new();
        push_str(&mut marker, "       ... (");
        push_decimal(&mut marker, *consecutive_skipped);
        push_str(&mut marker, " lines omitted)");
        let line = to_chars(marker.as_str());
        assert(line@ =~= gap_marker(*consecutive_skipped as nat));
        let ghost before = texts(kept@);
        kept.push(line);
        assert(texts(kept@) =~= before.push(line@));
    }
    *consecutive_skipped = 0;
}

/// The line number in front of the bar of a rendered line, if any.
pub fn segment_line_number(segment: &Vec<char>) -> (r: Option<u32>)
    ensures
        match r {
            Some(n) => segment_number(segment@) == Some(n as nat),
            None => segment_number(segment@).is_none(),
        },
{
    match find_char(segment, '│', 0) {
        Some(pos) => {
            proof {
                crate::paths::lemma_first_index(segment@, '│', pos as int);
                assert(segment@.take(pos as int) =~= segment@.subrange(0, pos as int));
            }
            let head = slice_chars(segment, 0, pos);
            let trimmed = trim_chars(&head);
            match parse_unsigned(&trimmed, u32::MAX as u64) {
                Some(n) => Some(n as u32),
                None => None,
            }
        },
        None => {
            proof {
                crate::paths::lemma_first_index(segment@, '│', segment@.len() as int);
            }
            None
        },
    }
}

/// Removes from a code block the lines whose numbers are in `skip_lines`.
/// Fences pass through; a run of more than three removed lines leaves a
/// marker.
pub fn filter_code_lines(code: &str, skip_lines: &HashSet<u32>) -> (filtered: String)
    ensures
        filtered@ == filtered_code(code@, skip_lines@),
{
    let chars = to_chars(code);
    let segs = split_on(&chars, '\n');
    let mut kept: Vec<Vec<char>> = Vec::new();
    let mut consecutive_skipped: u64 = 0;
    let mut i: usize = 0;
    assert(texts(kept@) =~= Seq::<Seq<char>>::empty());
    while i < segs.len()
        invariant
            i <= segs.len(),
            texts(segs@) == pieces(code@, '\n'),
            consecutive_skipped <= i,
            texts(kept@) == filter_fold(texts(segs@), skip_lines@, i as int).kept,
            consecutive_skipped == filter_fold(texts(segs@), skip_lines@, i as int).skipped,
        decreases segs.len() - i,
    {
        let segment = &segs[i];
        let ghost before = texts(kept@);
        if starts_with(segment, "```") || segment.len() == 0 {
            flush_gap_marker(&mut kept, &mut consecutive_skipped);
            let ghost mid = texts(kept@);
            kept.push(slice_chars(segment, 0, segment.len()));
            assert(segment@.subrange(0, segment@.len() as int) =~= segment@);
            assert(texts(kept@) =~= mid.push(segment@));
        } else {
            let number = segment_line_number(segment);
            let skip = match number {
                Some(n) => skip_lines.contains(&n),
                None => false,
            };
            assert(skip == left_out(segment@, skip_lines@));
            if skip {
                consecutive_skipped += 1;
            } else {
                flush_gap_marker(&mut kept, &mut consecutive_skipped);
                let ghost mid = texts(kept@);
                kept.push(slice_chars(segment, 0, segment.len()));
                assert(segment@.subrange(0, segment@.len() as int) =~= segment@);
                assert(texts(kept@) =~= mid.push(segment@));
            }
        }
        i += 1;
    }
    join_chars(&kept, "\n")
}

} // verus!
