//! Outline context: where in its file's outline a match lies.

use vstd::prelude::*;

use crate::paths::{first_index, lemma_first_index};
use crate::read::detect::{detect_file_type, file_type_of};
use crate::text::{
    find_char, lines, parse_unsigned, push_all, push_str, slice_chars, split_lines, texts,
    to_chars, trim, trim_chars, unsigned_value,
};
use crate::types::FileType;

verus! {

/// Files above this size get no outline context.
pub const OUTLINE_SIZE_CAP: u64 = 500_000;

/// The number that `s` stands for once trimmed, as a `u32`.
pub open spec fn trimmed_number(s: Seq<char>) -> Option<u32> {
    match unsigned_value(trim(s), u32::MAX as nat) {
        Some(v) => Some(v as u32),
        None => None,
    }
}

/// The range between the brackets of an outline entry: `a-b`, `a-` for an
/// open range that counts as `a` alone, or a single line `a`.
pub open spec fn bracket_range(inner: Seq<char>) -> Option<(u32, u32)> {
    let dash = first_index(inner, '-');
    if 0 <= dash < inner.len() {
        match trimmed_number(inner.take(dash)) {
            None => None,
            Some(start) => {
                let rest = inner.skip(dash + 1);
                if trim(rest).len() == 0 {
                    Some((start, start))
                } else {
                    match trimmed_number(rest) {
                        None => None,
                        Some(end) => Some((start, end)),
                    }
                }
            },
        }
    } else {
        match trimmed_number(inner) {
            None => None,
            Some(n) => Some((n, n)),
        }
    }
}

/// The line range that an outline entry begins with, as in `[20-115]` or
/// `[16]`; `None` for a line that does not begin with a bracketed range.
pub open spec fn line_range(line: Seq<char>) -> Option<(u32, u32)> {
    let t = trim(line);
    if t.len() == 0 || t[0] != '[' {
        None
    } else {
        let close = first_index(t, ']');
        if close < 0 || close >= t.len() {
            None
        } else {
            bracket_range(t.subrange(1, close))
        }
    }
}

fn parse_trimmed(s: &Vec<char>) -> (r: Option<u32>)
    ensures
        r == trimmed_number(s@),
{
    let t = trim_chars(s);
    match parse_unsigned(&t, u32::MAX as u64) {
        Some(v) => Some(v as u32),
        None => None,
    }
}

/// Extracts the line range that an outline entry begins with.
pub fn chars_line_range(line: &Vec<char>) -> (r: Option<(u32, u32)>)
    ensures
        r == line_range(line@),
{
    let t = trim_chars(line);
    if t.len() == 0 || t[0] != '[' {
        return None;
    }
    let close = match find_char(&t, ']', 0) {
        Some(c) => {
            proof {
                lemma_first_index(t@, ']', c as int);
            }
            c
        },
        None => {
            proof {
                lemma_first_index(t@, ']', t@.len() as int);
            }
            return None;
        },
    };
    let inner = slice_chars(&t, 1, close);
    match find_char(&inner, '-', 0) {
        Some(dash) => {
            proof {
                lemma_first_index(inner@, '-', dash as int);
            }
            let a = slice_chars(&inner, 0, dash);
            let b = slice_chars(&inner, dash + 1, inner.len());
            assert(a@ =~= inner@.take(dash as int));
            assert(b@ =~= inner@.skip(dash + 1));
            let start = match parse_trimmed(&a) {
                Some(s) => s,
                None => {
                    return None;
                },
            };
            if trim_chars(&b).len() == 0 {
                Some((start, start))
            } else {
                match parse_trimmed(&b) {
                    Some(end) => Some((start, end)),
                    None => None,
                }
            }
        },
        None => {
            proof {
                lemma_first_index(inner@, '-', inner@.len() as int);
            }
            match parse_trimmed(&inner) {
                Some(n) => Some((n, n)),
                None => None,
            }
        },
    }
}

/// Extracts the line range from an outline entry like `[20-115]` or `[16]`.
pub fn extract_line_range(line: &str) -> (r: Option<(u32, u32)>)
    ensures
        r == line_range(line@),
{
    let chars = to_chars(line);
    chars_line_range(&chars)
}

/// Whether the outline entry `line` covers the source line `n`.
pub open spec fn covers(line: Seq<char>, n: u32) -> bool {
    match line_range(line) {
        Some(r) => r.0 <= n <= r.1,
        None => false,
    }
}

/// The index of the first entry among `ls` that covers line `n`, or
/// `ls.len()` if there is none.
pub open spec fn first_covering(ls: Seq<Seq<char>>, n: u32) -> int
    decreases ls.len(),
{
    if ls.len() == 0 || covers(ls[0], n) {
        0
    } else {
        1 + first_covering(ls.drop_first(), n)
    }
}

/// The entries `from..upto` of an outline, each on a line of its own: the
/// entry at `hit` behind an arrow, the others behind two spaces.
pub open spec fn context_rows(ls: Seq<Seq<char>>, hit: int, from: int, upto: int) -> Seq<char>
    decreases upto - from,
{
    if upto <= from {
        Seq::empty()
    } else {
        context_rows(ls, hit, from, upto - 1) + (if upto - 1 == hit {
            "\n→ "@
        } else {
            "\n  "@
        }) + ls[upto - 1]
    }
}

/// Whether a file takes part in outline context at all: it is a code file
/// whose size is known and at most 500 KB.
pub open spec fn has_outline_context(path: Seq<char>, byte_len: Option<u64>) -> bool {
    (file_type_of(path) is Code) && byte_len.is_some() && byte_len.unwrap() <= OUTLINE_SIZE_CAP
}

/// Executable form of [`has_outline_context`].
pub fn takes_outline_context(path: &str, byte_len: Option<u64>) -> (b: bool)
    ensures
        b == has_outline_context(path@, byte_len),
{
    let is_code = match detect_file_type(path) {
        FileType::Code(_) => true,
        _ => false,
    };
    match byte_len {
        Some(n) => is_code && n <= OUTLINE_SIZE_CAP,
        None => false,
    }
}

/// The outline context of a match at `match_line`: the outline entry that
/// covers the line, with up to two entries before and after it.
pub open spec fn outline_context(
    path: Seq<char>,
    match_line: u32,
    byte_len: Option<u64>,
    outline: Seq<char>,
) -> Option<Seq<char>> {
    let ls = lines(outline);
    let hit = first_covering(ls, match_line);
    if !has_outline_context(path, byte_len) || hit < 0 || hit >= ls.len() {
        None
    } else {
        let from = if hit >= 2 {
            hit - 2
        } else {
            0
        };
        let upto = if hit + 3 <= ls.len() {
            hit + 3
        } else {
            ls.len() as int
        };
        Some(context_rows(ls, hit, from, upto))
    }
}

/// Shows where a match lies in the outline of its file: the entry that covers
/// `match_line`, marked with an arrow, between its neighbours.
///
/// There is no context for a file that is no code, whose size is unknown or
/// above 500 KB, or whose outline has no entry that covers the line.
pub fn outline_context_for_match(path: &str, match_line: u32, byte_len: Option<u64>, outline: &str) -> (context:
    Option<String>)
    ensures
        match context {
            Some(c) => outline_context(path@, match_line, byte_len, outline@) == Some(c@),
            None => outline_context(path@, match_line, byte_len, outline@).is_none(),
        },
{
    if !takes_outline_context(path, byte_len) {
        return None;
    }
    let chars = to_chars(outline);
    let ls = split_lines(&chars);
    let ghost all = lines(outline@);
    let mut hit: usize = 0;
    assert(all.skip(0) =~= all);
    loop
        invariant
            hit <= ls.len(),
            texts(ls@) == all,
            all == lines(outline@),
            has_outline_context(path@, byte_len),
            first_covering(all, match_line) == hit + first_covering(all.skip(hit as int), match_line),
        ensures
            hit < ls.len(),
            texts(ls@) == all,
            first_covering(all, match_line) == hit,
        decreases ls.len() - hit,
    {
        if hit >= ls.len() {
            assert(all.skip(hit as int).len() == 0);
            return None;
        }
        let covered = match chars_line_range(&ls[hit]) {
            Some((s, e)) => match_line >= s && match_line <= e,
            None => false,
        };
        assert(covered == covers(all[hit as int], match_line));
        if covered {
            break;
        }
        assert(all.skip(hit as int).drop_first() =~= all.skip(hit + 1));
        hit += 1;
    }
    let from: usize = if hit >= 2 {
        hit - 2
    } else {
        0
    };
    let upto: usize = if ls.len() >= 3 && hit <= ls.len() - 3 {
        hit + 3
    } else {
        ls.len()
    };
    let mut out = String::new();
    let mut i: usize = from;
    while i < upto
        invariant
            from <= i <= upto <= ls.len(),
            texts(ls@) == all,
            out@ == context_rows(all, hit as int, from as int, i as int),
        decreases upto - i,
    {
        let ghost before = out@;
        if i == hit {
            push_str(&mut out, "\n→ ");
        } else {
            push_str(&mut out, "\n  ");
        }
        push_all(&mut out, &ls[i]);
        i += 1;
        assert(out@ =~= context_rows(all, hit as int, from as int, i as int));
    }
    Some(out)
}

} // verus!
