//! The outline of a Markdown file: its headings, found by a scan over the
//! bytes.

use vstd::prelude::*;
use vstd::slice::slice_subrange;
use vstd::utf8::{decode_utf8, valid_utf8};

use crate::bytes::{find_byte, lemma_next_byte_bounds, line_starts, next_byte, text_strict};
use crate::text::{
    decimal, join, join_strings, push_all, push_decimal, push_repeat, push_str, repeat,
    string_views, to_chars, truncate_chars, truncated,
};

verus! {

/// Whether a line opens or closes a fenced code block: it begins with three
/// backticks.
pub open spec fn is_fence(line: Seq<u8>) -> bool {
    line.len() >= 3 && line[0] == 0x60 && line[1] == 0x60 && line[2] == 0x60
}

/// The number of `#` that `line` has from index `from` on.
pub open spec fn hashes(line: Seq<u8>, from: int) -> int
    decreases line.len() - from,
{
    if 0 <= from < line.len() && line[from] == 0x23 {
        1 + hashes(line, from + 1)
    } else {
        0
    }
}

/// The text of a heading as the outline shows it: whole up to eighty bytes,
/// else cut to seventy-seven bytes with three dots behind.
pub open spec fn shown_heading(bytes: Seq<u8>) -> Seq<char> {
    let text = decode_utf8(bytes);
    if bytes.len() > 80 {
        truncated(text, 77) + "..."@
    } else {
        text
    }
}

/// The outline entry for line number `line_num`, if the line is a heading of
/// level one to six whose text is valid UTF-8: the line number in brackets,
/// two spaces of indent per level below the first, and the text without the
/// `#`s and one space behind them.
pub open spec fn heading_entry(line: Seq<u8>, line_num: nat) -> Option<Seq<char>> {
    let level = hashes(line, 0);
    if level < 1 || level > 6 {
        None
    } else {
        let text_start = if level < line.len() && line[level] == 0x20 {
            level + 1
        } else {
            level
        };
        let bytes = line.skip(text_start);
        if valid_utf8(bytes) {
            Some(
                "["@ + decimal(line_num) + "] "@ + repeat(' ', (2 * (level - 1)) as nat)
                    + shown_heading(bytes),
            )
        } else {
            None
        }
    }
}

/// The state of the scan.
pub struct Scan {
    /// Where the next line begins.
    pub pos: int,
    /// The number of lines read.
    pub line_num: nat,
    /// Whether the scan is inside a fenced code block.
    pub in_code: bool,
    /// The number of fenced code blocks opened.
    pub blocks: nat,
    /// The entries found.
    pub entries: Seq<Seq<char>>,
}

/// The state after the line that begins at `s.pos`.
pub open spec fn after_line(buf: Seq<u8>, s: Scan) -> Scan {
    let end = next_byte(buf, 0x0A, s.pos);
    let line = buf.subrange(s.pos, end);
    let next = if end < buf.len() {
        end + 1
    } else {
        buf.len() as int
    };
    if is_fence(line) {
        Scan {
            pos: next,
            line_num: s.line_num + 1,
            in_code: !s.in_code,
            blocks: if s.in_code {
                s.blocks
            } else {
                s.blocks + 1
            },
            entries: s.entries,
        }
    } else {
        Scan {
            pos: next,
            line_num: s.line_num + 1,
            in_code: s.in_code,
            blocks: s.blocks,
            entries: if s.in_code {
                s.entries
            } else {
                match heading_entry(line, s.line_num + 1) {
                    Some(e) => s.entries.push(e),
                    None => s.entries,
                }
            },
        }
    }
}

/// The state at the end of the scan: when the bytes are used up or
/// `max_lines` entries are found.
pub open spec fn scanned(buf: Seq<u8>, s: Scan, max_lines: nat) -> Scan
    decreases buf.len() - s.pos,
{
    if s.pos < 0 || s.pos >= buf.len() || s.entries.len() >= max_lines {
        s
    } else {
        proof {
            lemma_next_byte_bounds(buf, 0x0A, s.pos);
        }
        scanned(buf, after_line(buf, s), max_lines)
    }
}

/// The line numbers of the headings that the scan finds from the state `s`
/// on, behind `numbers`.
pub open spec fn heading_numbers(buf: Seq<u8>, s: Scan, numbers: Seq<nat>, max_lines: nat) -> Seq<
    nat,
>
    decreases buf.len() - s.pos,
{
    if s.pos < 0 || s.pos >= buf.len() || s.entries.len() >= max_lines {
        numbers
    } else {
        proof {
            lemma_next_byte_bounds(buf, 0x0A, s.pos);
        }
        let t = after_line(buf, s);
        heading_numbers(
            buf,
            t,
            if t.entries.len() > s.entries.len() {
                numbers.push(t.line_num)
            } else {
                numbers
            },
            max_lines,
        )
    }
}

/// Whether the entries are headings in the order of the file: each begins
/// with its line number in brackets, the numbers lie between one and the
/// number of lines read, and each is greater than the one in front of it.
pub open spec fn headings_in_order(entries: Seq<Seq<char>>, numbers: Seq<nat>, read: nat) -> bool {
    &&& numbers.len() == entries.len()
    &&& forall|i: int|
        0 <= i < entries.len() ==> ("["@ + decimal(numbers[i]) + "] "@).is_prefix_of(
            #[trigger] entries[i],
        )
    &&& forall|i: int| 0 <= i < numbers.len() ==> 1 <= #[trigger] numbers[i] <= read
    &&& forall|i: int, j: int| 0 <= i < j < numbers.len() ==> numbers[i] < numbers[j]
}

/// The scan keeps the headings in the order of the file and never finds
/// more than `max_lines`; it reads no more lines than there are bytes.
pub proof fn lemma_scan_in_order(buf: Seq<u8>, s: Scan, numbers: Seq<nat>, max_lines: nat)
    requires
        0 <= s.pos <= buf.len(),
        s.line_num <= s.pos,
        s.entries.len() <= max_lines,
        headings_in_order(s.entries, numbers, s.line_num),
    ensures
        headings_in_order(
            scanned(buf, s, max_lines).entries,
            heading_numbers(buf, s, numbers, max_lines),
            scanned(buf, s, max_lines).line_num,
        ),
        scanned(buf, s, max_lines).entries.len() <= max_lines,
        scanned(buf, s, max_lines).line_num <= buf.len(),
    decreases buf.len() - s.pos,
{
    if s.pos >= buf.len() || s.entries.len() >= max_lines {
    } else {
        lemma_next_byte_bounds(buf, 0x0A, s.pos);
        let t = after_line(buf, s);
        let end = next_byte(buf, 0x0A, s.pos);
        let line = buf.subrange(s.pos, end);
        let next = if t.entries.len() > s.entries.len() {
            numbers.push(t.line_num)
        } else {
            numbers
        };
        if t.entries.len() > s.entries.len() {
            let e = heading_entry(line, s.line_num + 1).unwrap();
            assert(t.entries == s.entries.push(e));
            let head = "["@ + decimal(t.line_num) + "] "@;
            assert(head.is_prefix_of(e)) by {
                assert(e.subrange(0, head.len() as int) =~= head);
            }
            assert forall|i: int| 0 <= i < t.entries.len() implies ("["@ + decimal(next[i])
                + "] "@).is_prefix_of(#[trigger] t.entries[i]) by {
                if i < s.entries.len() {
                    assert(t.entries[i] == s.entries[i]);
                    assert(next[i] == numbers[i]);
                }
            }
            assert forall|i: int, j: int| 0 <= i < j < next.len() implies next[i] < next[j] by {
                if j == numbers.len() {
                    assert(next[i] == numbers[i]);
                }
            }
        } else {
            assert(t.entries == s.entries);
        }
        assert(headings_in_order(t.entries, next, t.line_num));
        lemma_scan_in_order(buf, t, next, max_lines);
    }
}

/// The scan reads no more lines than are left: one more than there are
/// line feeds from where it stands.
pub proof fn lemma_lines_read(buf: Seq<u8>, s: Scan, max_lines: nat)
    requires
        0 <= s.pos <= buf.len(),
    ensures
        scanned(buf, s, max_lines).line_num <= s.line_num + (if s.pos < buf.len() {
            1 + line_starts(buf, s.pos).len()
        } else {
            0
        }),
    decreases buf.len() - s.pos,
{
    if s.pos >= buf.len() || s.entries.len() >= max_lines {
    } else {
        lemma_next_byte_bounds(buf, 0x0A, s.pos);
        lemma_lines_read(buf, after_line(buf, s), max_lines);
    }
}

/// The headings of a Markdown outline stand in the order of the file, each
/// behind its line number, which lies between one and the number of lines
/// of the file; no two share a line, and there are at most `max_lines` of
/// them.
pub proof fn lemma_markdown_headings(buf: Seq<u8>, max_lines: nat)
    ensures
        ({
            let start = Scan {
                pos: 0,
                line_num: 0,
                in_code: false,
                blocks: 0,
                entries: Seq::empty(),
            };
            let end = scanned(buf, start, max_lines);
            &&& headings_in_order(
                end.entries,
                heading_numbers(buf, start, Seq::empty(), max_lines),
                end.line_num,
            )
            &&& end.entries.len() <= max_lines
            &&& end.line_num <= 1 + line_starts(buf, 0).len()
        }),
{
    let start = Scan { pos: 0, line_num: 0, in_code: false, blocks: 0, entries: Seq::empty() };
    lemma_scan_in_order(buf, start, Seq::empty(), max_lines);
    lemma_lines_read(buf, start, max_lines);
}

/// The outline of a Markdown file: an entry per heading outside fenced code
/// blocks, at most `max_lines` of them, and a last line that counts the code
/// blocks, if there are any.
pub open spec fn markdown_outline(buf: Seq<u8>, max_lines: nat) -> Seq<char> {
    let end = scanned(
        buf,
        Scan { pos: 0, line_num: 0, in_code: false, blocks: 0, entries: Seq::empty() },
        max_lines,
    );
    join(
        if end.blocks > 0 {
            end.entries.push("\n("@ + decimal(end.blocks) + " code blocks)"@)
        } else {
            end.entries
        },
        "\n"@,
    )
}

fn count_hashes(line: &[u8]) -> (n: usize)
    ensures
        n == hashes(line@, 0),
        n <= line@.len(),
{
    let mut n: usize = 0;
    while n < line.len() && line[n] == 0x23
        invariant
            n <= line@.len(),
            hashes(line@, 0) == n + hashes(line@, n as int),
        decreases line@.len() - n,
    {
        n += 1;
    }
    n
}

fn heading_of(line: &[u8], line_num: u64) -> (r: Option<String>)
    ensures
        match r {
            Some(e) => heading_entry(line@, line_num as nat) == Some(e@),
            None => heading_entry(line@, line_num as nat).is_none(),
        },
{
    let level = count_hashes(line);
    if level < 1 || level > 6 {
        return None;
    }
    let text_start: usize = if level < line.len() && line[level] == 0x20 {
        level + 1
    } else {
        level
    };
    let bytes = slice_subrange(line, text_start, line.len());
    assert(bytes@ =~= line@.skip(text_start as int));
    let text = match text_strict(bytes) {
        Some(t) => t,
        None => {
            return None;
        },
    };
    let mut out = String::new();
    push_str(&mut out, "[");
    push_decimal(&mut out, line_num);
    push_str(&mut out, "] ");
    push_repeat(&mut out, ' ', 2 * (level - 1));
    let ghost head = out@;
    if bytes.len() > 80 {
        let cut = truncate_chars(&to_chars(text.as_str()), 77);
        push_all(&mut out, &cut);
        push_str(&mut out, "...");
    } else {
        push_str(&mut out, text.as_str());
    }
    assert(out@ =~= head + shown_heading(bytes@));
    Some(out)
}

/// Outlines a Markdown file: finds the lines that begin with `#`, takes level
/// and text of each heading, and counts the fenced code blocks.
pub fn outline(buf: &[u8], max_lines: usize) -> (text: String)
    ensures
        text@ == markdown_outline(buf@, max_lines as nat),
{
    let mut entries: Vec<String> = Vec::new();
    let mut pos: usize = 0;
    let mut line_num: u64 = 0;
    let mut blocks: u64 = 0;
    let mut in_code = false;
    let ghost start = Scan { pos: 0, line_num: 0, in_code: false, blocks: 0, entries: Seq::empty() };
    assert(string_views(entries@) =~= Seq::<Seq<char>>::empty());
    while pos < buf.len() && entries.len() < max_lines
        invariant
            pos <= buf@.len(),
            line_num <= pos,
            blocks <= line_num,
            scanned(buf@, start, max_lines as nat) == scanned(
                buf@,
                Scan {
                    pos: pos as int,
                    line_num: line_num as nat,
                    in_code,
                    blocks: blocks as nat,
                    entries: string_views(entries@),
                },
                max_lines as nat,
            ),
        decreases buf@.len() - pos,
    {
        let ghost before = Scan {
            pos: pos as int,
            line_num: line_num as nat,
            in_code,
            blocks: blocks as nat,
            entries: string_views(entries@),
        };
        let ghost shown = string_views(entries@);
        line_num = line_num + 1;
        let end = find_byte(buf, 0x0A, pos);
        let line = slice_subrange(buf, pos, end);
        let next: usize = if end < buf.len() {
            end + 1
        } else {
            buf.len()
        };
        if line.len() >= 3 && line[0] == 0x60 && line[1] == 0x60 && line[2] == 0x60 {
            if in_code {
                in_code = false;
            } else {
                in_code = true;
                blocks = blocks + 1;
            }
        } else if !in_code {
            match heading_of(line, line_num) {
                Some(e) => {
                    entries.push(e);
                    assert(string_views(entries@) =~= shown.push(e@));
                },
                None => {},
            }
        }
        pos = next;
        assert(Scan {
            pos: pos as int,
            line_num: line_num as nat,
            in_code,
            blocks: blocks as nat,
            entries: string_views(entries@),
        } == after_line(buf@, before));
    }
    let ghost end_state = Scan {
        pos: pos as int,
        line_num: line_num as nat,
        in_code,
        blocks: blocks as nat,
        entries: string_views(entries@),
    };
    assert(scanned(buf@, end_state, max_lines as nat) == end_state);
    if blocks > 0 {
        let ghost shown = string_views(entries@);
        let mut footer = String::new();
        push_str(&mut footer, "\n(");
        push_decimal(&mut footer, blocks);
        push_str(&mut footer, " code blocks)");
        assert(footer@ =~= "\n("@ + decimal(blocks as nat) + " code blocks)"@);
        entries.push(footer);
        assert(string_views(entries@) =~= shown.push("\n("@ + decimal(blocks as nat)
            + " code blocks)"@));
    }
    join_strings(&entries, "\n")
}

} // verus!
