//! Smart truncation: for a long definition, the lines that stand for it.

use vstd::prelude::*;

use crate::text::{
    is_blank, lines, split_lines, starts_with, texts, to_chars, trim, trim_chars, trim_start,
};
use crate::types::Lang;

verus! {

/// Definitions of up to this many lines are shown whole.
pub const DIVERSE_THRESHOLD: u32 = 60;

/// Whether a trimmed line is the head of a branch or leaves the definition.
pub open spec fn branch_head(t: Seq<char>) -> bool {
    "if "@.is_prefix_of(t) || "if("@.is_prefix_of(t) || "for "@.is_prefix_of(t)
        || "for("@.is_prefix_of(t) || "while "@.is_prefix_of(t) || "while("@.is_prefix_of(t)
        || "match "@.is_prefix_of(t) || "switch "@.is_prefix_of(t) || "switch("@.is_prefix_of(t)
        || "return"@.is_prefix_of(t) || "throw "@.is_prefix_of(t)
}

/// Executable form of [`branch_head`].
pub fn is_branch_head(trimmed: &Vec<char>) -> (b: bool)
    ensures
        b == branch_head(trimmed@),
{
    starts_with(trimmed, "if ") || starts_with(trimmed, "if(") || starts_with(trimmed, "for ")
        || starts_with(trimmed, "for(") || starts_with(trimmed, "while ") || starts_with(
        trimmed,
        "while(",
    ) || starts_with(trimmed, "match ") || starts_with(trimmed, "switch ") || starts_with(
        trimmed,
        "switch(",
    ) || starts_with(trimmed, "return") || starts_with(trimmed, "throw ")
}

/// The indentation of a line: the number of whitespace characters in front.
pub open spec fn indent_of(line: Seq<char>) -> int {
    line.len() - trim_start(line).len()
}

/// Whether some line from `start` to just before `n` that is not blank has
/// the indentation `d`.
pub open spec fn indent_seen(ls: Seq<Seq<char>>, start: int, n: int, d: int) -> bool {
    exists|k: int| start <= k < n && !is_blank(#[trigger] ls[k - 1]) && indent_of(ls[k - 1]) == d
}

/// Whether line `n` is the first from `start` on with its indentation.
pub open spec fn new_indent(ls: Seq<Seq<char>>, start: int, n: int) -> bool {
    !indent_seen(ls, start, n, indent_of(ls[n - 1]))
}

/// Whether line `n` is kept of a long definition that spans the lines
/// `start..=end`: the first two and the last two lines, every head of a
/// branch, and the first line of every indentation.
pub open spec fn kept_line(ls: Seq<Seq<char>>, start: int, end: int, n: int) -> bool {
    n == start || n == start + 1 || n == end || n == end - 1 || (!is_blank(ls[n - 1]) && (
    branch_head(trim(ls[n - 1])) || new_indent(ls, start, n)))
}

/// Whether a definition is cut down to selected lines: it spans more than
/// sixty lines, all of which exist.
pub open spec fn is_long(ls: Seq<Seq<char>>, start: u32, end: u32) -> bool {
    1 <= start <= end && end <= ls.len() && end - start >= DIVERSE_THRESHOLD
}

/// The numbers of the kept lines among `start..n`, in order.
pub open spec fn kept_upto(ls: Seq<Seq<char>>, start: int, end: int, n: int) -> Seq<u32>
    decreases n - start,
{
    if n <= start {
        Seq::empty()
    } else if kept_line(ls, start, end, n - 1) {
        kept_upto(ls, start, end, n - 1).push((n - 1) as u32)
    } else {
        kept_upto(ls, start, end, n - 1)
    }
}

/// The lines that stand for the definition at `start..=end` in `content`, if
/// the definition is long.
pub open spec fn diverse_lines(content: Seq<char>, start: u32, end: u32) -> Option<Seq<u32>> {
    let ls = lines(content);
    if is_long(ls, start, end) {
        Some(kept_upto(ls, start as int, end as int, end + 1))
    } else {
        None
    }
}

fn leading(line: &Vec<char>) -> (n: usize)
    ensures
        n == indent_of(line@),
        n <= line@.len(),
{
    let trimmed = trim_start_len(line);
    line.len() - trimmed
}

fn trim_start_len(line: &Vec<char>) -> (n: usize)
    ensures
        n == trim_start(line@).len(),
        n <= line@.len(),
{
    let mut k: usize = 0;
    assert(line@.subrange(0, line@.len() as int) =~= line@);
    while k < line.len() && crate::text::is_space_char(line[k])
        invariant
            k <= line@.len(),
            trim_start(line@) == trim_start(line@.subrange(k as int, line@.len() as int)),
        decreases line@.len() - k,
    {
        assert(line@.subrange(k as int, line@.len() as int).drop_first() =~= line@.subrange(
            k + 1,
            line@.len() as int,
        ));
        k += 1;
    }
    line.len() - k
}

/// Selects the lines that stand for a long definition: its first two and
/// last two lines, the heads of its branches, and the first line of every
/// indentation. A definition of up to sixty lines is not cut down.
pub fn select_diverse_lines(content: &str, def_start: u32, def_end: u32, lang: Lang) -> (keep: Option<
    Vec<u32>,
>)
    ensures
        match keep {
            Some(k) => diverse_lines(content@, def_start, def_end) == Some(k@),
            None => diverse_lines(content@, def_start, def_end).is_none(),
        },
{
    let chars = to_chars(content);
    let ls = split_lines(&chars);
    let ghost all = lines(content@);
    if !(1 <= def_start && def_start <= def_end && def_end as usize <= ls.len() && def_end
        - def_start >= DIVERSE_THRESHOLD) {
        return None;
    }
    let mut keep: Vec<u32> = Vec::new();
    let mut seen: Vec<usize> = Vec::new();
    let mut n: u64 = def_start as u64;
    assert(keep@ =~= kept_upto(all, def_start as int, def_end as int, def_start as int));
    while n <= def_end as u64
        invariant
            1 <= def_start <= n <= def_end + 1,
            def_end <= all.len(),
            all == texts(ls@),
            keep@ == kept_upto(all, def_start as int, def_end as int, n as int),
            forall|d: usize| #[trigger]
                seen@.contains(d) == indent_seen(all, def_start as int, n as int, d as int),
        decreases def_end + 1 - n,
    {
        let line = &ls[(n - 1) as usize];
        let trimmed = trim_chars(line);
        let blank = trimmed.len() == 0;
        let indent = leading(line);
        let mut known = false;
        let mut j: usize = 0;
        while j < seen.len()
            invariant
                j <= seen@.len(),
                known == exists|x: int| 0 <= x < j && seen@[x] == indent,
            decreases seen@.len() - j,
        {
            if seen[j] == indent {
                known = true;
            }
            j += 1;
        }
        assert(known == seen@.contains(indent));
        assert(known == !new_indent(all, def_start as int, n as int));
        let wanted = n == def_start as u64 || n == def_start as u64 + 1 || n == def_end as u64 || n + 1
            == def_end as u64 || (
        !blank && (is_branch_head(&trimmed) || !known));
        assert(wanted == kept_line(all, def_start as int, def_end as int, n as int));
        if wanted {
            keep.push(n as u32);
        }
        let ghost before = seen@;
        if !blank && !known {
            seen.push(indent);
        }
        proof {
            assert forall|d: usize| #[trigger]
                seen@.contains(d) == indent_seen(all, def_start as int, n + 1, d as int) by {
                let was = indent_seen(all, def_start as int, n as int, d as int);
                let now = indent_seen(all, def_start as int, n + 1, d as int);
                assert(before.contains(d) == was);
                if was {
                    let k = choose|k: int|
                        def_start <= k < n && !is_blank(#[trigger] all[k - 1]) && indent_of(
                            all[k - 1],
                        ) == d as int;
                    assert(def_start <= k < n + 1 && !is_blank(all[k - 1]));
                }
                if !blank && d == indent {
                    assert(def_start <= n < n + 1 && !is_blank(all[n - 1]) && indent_of(
                        all[n - 1],
                    ) == d as int);
                }
                if now {
                    let k = choose|k: int|
                        def_start <= k < n + 1 && !is_blank(#[trigger] all[k - 1]) && indent_of(
                            all[k - 1],
                        ) == d as int;
                    if k < n {
                        assert(was);
                    } else {
                        assert(!blank && d == indent);
                    }
                }
                if before.contains(d) {
                    let x = choose|x: int| 0 <= x < before.len() && before[x] == d;
                    assert(seen@[x] == d);
                }
                if !blank && !known && d == indent {
                    assert(seen@[before.len() as int] == d);
                }
                if seen@.contains(d) && !before.contains(d) {
                    let x = choose|x: int| 0 <= x < seen@.len() && seen@[x] == d;
                    if x < before.len() {
                        assert(before[x] == d);
                    }
                }
            }
        }
        n += 1;
    }
    let _ = lang;
    Some(keep)
}

} // verus!
