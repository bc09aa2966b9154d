//! Hashline edits: replacements of line ranges, anchored by line number and
//! content hash, and refused when the file has changed since it was read.
//!
//! A file is its pieces between line feeds; joined by line feeds, they give
//! the file back byte for byte. Line `n` is the `n`-th piece, counted from
//! one.

use vstd::prelude::*;
use vstd::utf8::encode_utf8;

use crate::error::TilthError;
use crate::order::{by_key, ints, sort_by_keys, sorted};
use crate::paths::{first_index, lemma_first_index, pieces, split_on};
use crate::text::{
    decimal, find_char, join, join_chars, parse_unsigned, push_all, push_decimal, push_str,
    slice_chars, string_of, texts, to_chars, unsigned_value,
};

verus! {

// ---------------------------------------------------------------------------
// Hashes
// ---------------------------------------------------------------------------

/// The offset basis of the 32-bit FNV-1a hash.
pub const FNV_OFFSET: u32 = 0x811c_9dc5;

/// The prime of the 32-bit FNV-1a hash.
pub const FNV_PRIME: u32 = 0x0100_0193;

/// The 32-bit FNV-1a hash of the first `n` bytes of `bytes`.
pub open spec fn fnv1a(bytes: Seq<u8>, n: int) -> u32
    decreases n,
{
    if n <= 0 {
        FNV_OFFSET
    } else {
        (((fnv1a(bytes, n - 1) ^ (bytes[n - 1] as u32)) as int * FNV_PRIME as int) % 0x1_0000_0000) as u32
    }
}

/// The hash of a line: the low twelve bits of the FNV-1a hash of its bytes.
pub open spec fn line_hash_of(line: Seq<char>) -> u16 {
    let bytes = encode_utf8(line);
    (fnv1a(bytes, bytes.len() as int) & 0xfff) as u16
}

/// The hash of a line of text.
pub fn line_hash(line: &str) -> (h: u16)
    ensures
        h == line_hash_of(line@),
        h < 0x1000,
{
    let bytes = line.as_bytes();
    let mut hash: u32 = FNV_OFFSET;
    let mut i: usize = 0;
    while i < bytes.len()
        invariant
            i <= bytes@.len(),
            hash == fnv1a(bytes@, i as int),
        decreases bytes@.len() - i,
    {
        let mixed: u32 = hash ^ (bytes[i] as u32);
        assert(mixed as int * FNV_PRIME as int <= 0xffff_ffff * 0x0100_0193) by (nonlinear_arith)
            requires
                mixed <= 0xffff_ffff,
                FNV_PRIME == 0x0100_0193,
        ;
        let product: u64 = (mixed as u64) * (FNV_PRIME as u64);
        hash = (product % 0x1_0000_0000) as u32;
        i += 1;
    }
    let low: u32 = hash & 0xfff;
    assert(low < 0x1000) by (bit_vector)
        requires
            low == hash & 0xfff,
    ;
    low as u16
}

/// The character for a hexadecimal digit.
pub open spec fn hex_char(d: int) -> char {
    if d < 10 {
        crate::text::digit_char(d)
    } else if d == 10 {
        'a'
    } else if d == 11 {
        'b'
    } else if d == 12 {
        'c'
    } else if d == 13 {
        'd'
    } else if d == 14 {
        'e'
    } else {
        'f'
    }
}

/// A hash as it is written: three lower-case hexadecimal digits.
pub open spec fn hash_text(h: u16) -> Seq<char> {
    seq![
        hex_char(((h / 256) % 16) as int),
        hex_char(((h / 16) % 16) as int),
        hex_char((h % 16) as int),
    ]
}

fn hex_digit(d: u16) -> (c: char)
    requires
        d < 16,
    ensures
        c == hex_char(d as int),
{
    if d == 0 {
        '0'
    } else if d == 1 {
        '1'
    } else if d == 2 {
        '2'
    } else if d == 3 {
        '3'
    } else if d == 4 {
        '4'
    } else if d == 5 {
        '5'
    } else if d == 6 {
        '6'
    } else if d == 7 {
        '7'
    } else if d == 8 {
        '8'
    } else if d == 9 {
        '9'
    } else if d == 10 {
        'a'
    } else if d == 11 {
        'b'
    } else if d == 12 {
        'c'
    } else if d == 13 {
        'd'
    } else if d == 14 {
        'e'
    } else {
        'f'
    }
}

fn push_hash(out: &mut String, h: u16)
    ensures
        final(out)@ == old(out)@ + hash_text(h),
{
    out.push(hex_digit((h / 256) % 16));
    out.push(hex_digit((h / 16) % 16));
    out.push(hex_digit(h % 16));
    assert(out@ =~= old(out)@ + hash_text(h));
}

/// The value of a hexadecimal digit, in either case.
pub open spec fn hex_value(c: char) -> Option<nat> {
    match crate::text::digit_value(c) {
        Some(d) => Some(d),
        None => if c == 'a' || c == 'A' {
            Some(10)
        } else if c == 'b' || c == 'B' {
            Some(11)
        } else if c == 'c' || c == 'C' {
            Some(12)
        } else if c == 'd' || c == 'D' {
            Some(13)
        } else if c == 'e' || c == 'E' {
            Some(14)
        } else if c == 'f' || c == 'F' {
            Some(15)
        } else {
            None
        },
    }
}

fn hex_of(c: char) -> (r: Option<u16>)
    ensures
        match r {
            Some(d) => hex_value(c) == Some(d as nat) && d < 16,
            None => hex_value(c).is_none(),
        },
{
    if c == '0' {
        Some(0)
    } else if c == '1' {
        Some(1)
    } else if c == '2' {
        Some(2)
    } else if c == '3' {
        Some(3)
    } else if c == '4' {
        Some(4)
    } else if c == '5' {
        Some(5)
    } else if c == '6' {
        Some(6)
    } else if c == '7' {
        Some(7)
    } else if c == '8' {
        Some(8)
    } else if c == '9' {
        Some(9)
    } else if c == 'a' || c == 'A' {
        Some(10)
    } else if c == 'b' || c == 'B' {
        Some(11)
    } else if c == 'c' || c == 'C' {
        Some(12)
    } else if c == 'd' || c == 'D' {
        Some(13)
    } else if c == 'e' || c == 'E' {
        Some(14)
    } else if c == 'f' || c == 'F' {
        Some(15)
    } else {
        None
    }
}

/// The hash that three hexadecimal digits stand for.
pub open spec fn hash_value(s: Seq<char>) -> Option<u16> {
    if s.len() != 3 {
        None
    } else {
        match (hex_value(s[0]), hex_value(s[1]), hex_value(s[2])) {
            (Some(a), Some(b), Some(c)) => Some((a * 256 + b * 16 + c) as u16),
            _ => None,
        }
    }
}

/// The anchor that `s` stands for: a line number, a colon, and a hash of
/// three hexadecimal digits, as in `42:a3f`.
pub open spec fn anchor_of(s: Seq<char>) -> Option<(usize, u16)> {
    let colon = first_index(s, ':');
    if colon < 0 || colon >= s.len() {
        None
    } else {
        match unsigned_value(s.take(colon), usize::MAX as nat) {
            None => None,
            Some(line) => match hash_value(s.skip(colon + 1)) {
                None => None,
                Some(h) => Some((line as usize, h)),
            },
        }
    }
}

/// Parses an anchor such as `42:a3f`.
pub fn parse_anchor(s: &str) -> (r: Option<(usize, u16)>)
    ensures
        r == anchor_of(s@),
{
    let chars = to_chars(s);
    let colon = match find_char(&chars, ':', 0) {
        Some(c) => {
            proof {
                lemma_first_index(chars@, ':', c as int);
            }
            c
        },
        None => {
            proof {
                lemma_first_index(chars@, ':', chars@.len() as int);
            }
            return None;
        },
    };
    let head = slice_chars(&chars, 0, colon);
    let tail = slice_chars(&chars, colon + 1, chars.len());
    assert(head@ =~= chars@.take(colon as int));
    assert(tail@ =~= chars@.skip(colon + 1));
    let line = match parse_unsigned(&head, usize::MAX as u64) {
        Some(v) => v as usize,
        None => {
            return None;
        },
    };
    if tail.len() != 3 {
        return None;
    }
    let a = match hex_of(tail[0]) {
        Some(d) => d,
        None => {
            return None;
        },
    };
    let b = match hex_of(tail[1]) {
        Some(d) => d,
        None => {
            return None;
        },
    };
    let c = match hex_of(tail[2]) {
        Some(d) => d,
        None => {
            return None;
        },
    };
    Some((line, a * 256 + b * 16 + c))
}

// ---------------------------------------------------------------------------
// Hashlines
// ---------------------------------------------------------------------------

/// A line as a read shows it for editing: number, colon, hash, bar, content.
pub open spec fn hashline(number: nat, line: Seq<char>) -> Seq<char> {
    decimal(number) + ":"@ + hash_text(line_hash_of(line)) + "|"@ + line
}

/// The anchor of a line as a read shows it: its number, a colon, and the
/// hash of its text.
pub open spec fn anchor_text(number: nat, line: Seq<char>) -> Seq<char> {
    decimal(number) + ":"@ + hash_text(line_hash_of(line))
}

/// What is written for a hash is read back as that hash.
pub proof fn lemma_hash_value(h: u16)
    requires
        h < 4096,
    ensures
        hash_value(hash_text(h)) == Some(h),
{
    let a = ((h / 256) % 16) as int;
    let b = ((h / 16) % 16) as int;
    let c = (h % 16) as int;
    assert(hex_value(hex_char(a)) == Some(a as nat));
    assert(hex_value(hex_char(b)) == Some(b as nat));
    assert(hex_value(hex_char(c)) == Some(c as nat));
    assert(a * 256 + b * 16 + c == h);
}

/// A read shows every line behind an anchor that the edit tool takes: the
/// anchor stands in front of the first bar of the hashline, and it is read
/// back as the number of the line and the hash of its text.
pub proof fn lemma_anchor_round_trip(number: nat, line: Seq<char>)
    requires
        number <= usize::MAX,
    ensures
        hashline(number, line) == anchor_text(number, line) + "|"@ + line,
        first_index(hashline(number, line), '|') == anchor_text(number, line).len(),
        anchor_of(anchor_text(number, line)) == Some((number as usize, line_hash_of(line))),
{
    reveal_strlit(":");
    reveal_strlit("|");
    let digits = decimal(number);
    let h = line_hash_of(line);
    let hash = hash_text(h);
    let anchor = anchor_text(number, line);
    let shown = hashline(number, line);
    crate::text::lemma_decimal_value(number);
    let raw = fnv1a(encode_utf8(line), encode_utf8(line).len() as int);
    assert(raw & 0xfff < 4096) by (bit_vector);
    lemma_hash_value(h);
    assert(":"@ =~= seq![':']);
    assert("|"@ =~= seq!['|']);
    assert(anchor =~= digits + seq![':'] + hash);
    assert forall|j: int| 0 <= j < digits.len() implies anchor[j] != ':' && anchor[j] != '|' by {
        assert(anchor[j] == digits[j]);
        assert(crate::text::digit_value(digits[j]).is_some());
    }
    assert(anchor[digits.len() as int] == ':');
    lemma_first_index(anchor, ':', digits.len() as int);
    assert(anchor.take(digits.len() as int) =~= digits);
    assert(anchor.skip(digits.len() as int + 1) =~= hash);
    assert(digits[0] != '+') by {
        assert(crate::text::digit_value(digits[0]).is_some());
    }
    assert(unsigned_value(digits, usize::MAX as nat) == Some(number));
    assert(shown =~= anchor + seq!['|'] + line);
    assert forall|j: int| 0 <= j < anchor.len() implies shown[j] != '|' by {
        assert(shown[j] == anchor[j]);
        if j > digits.len() {
            assert(anchor[j] == hash[j - digits.len() - 1]);
            assert(hex_value(hash[j - digits.len() - 1]).is_some());
        }
    }
    assert(shown[anchor.len() as int] == '|');
    lemma_first_index(shown, '|', anchor.len() as int);
}

/// The hashlines of the first `n` lines, numbered from one.
pub open spec fn hashlines(lines: Seq<Seq<char>>, n: int) -> Seq<Seq<char>>
    decreases n,
{
    if n <= 0 {
        Seq::empty()
    } else {
        hashlines(lines, n - 1).push(hashline(n as nat, lines[n - 1]))
    }
}

/// A file as a read shows it for editing: every line behind its anchor.
pub open spec fn hashlined(content: Seq<char>) -> Seq<char> {
    let lines = pieces(content, '\n');
    join(hashlines(lines, lines.len() as int), "\n"@)
}

fn hashline_view(lines: &Vec<Vec<char>>) -> (view: String)
    ensures
        view@ == join(hashlines(texts(lines@), lines@.len() as int), "\n"@),
{
    let mut rows: Vec<Vec<char>> = Vec::new();
    let mut i: usize = 0;
    assert(texts(rows@) =~= hashlines(texts(lines@), 0));
    while i < lines.len()
        invariant
            i <= lines@.len(),
            texts(rows@) == hashlines(texts(lines@), i as int),
        decreases lines@.len() - i,
    {
        let ghost before = texts(rows@);
        let text = string_of(&lines[i]);
        let mut row = String::new();
        push_decimal(&mut row, i as u64 + 1);
        push_str(&mut row, ":");
        push_hash(&mut row, line_hash(text.as_str()));
        push_str(&mut row, "|");
        push_all(&mut row, &lines[i]);
        assert(row@ =~= hashline((i + 1) as nat, lines@[i as int]@));
        let chars = to_chars(row.as_str());
        rows.push(chars);
        assert(texts(rows@) =~= before.push(hashline((i + 1) as nat, lines@[i as int]@)));
        i += 1;
    }
    join_chars(&rows, "\n")
}

/// Renders a file for editing: every line behind its anchor.
pub fn hashline_content(content: &str) -> (view: String)
    ensures
        view@ == hashlined(content@),
{
    let chars = to_chars(content);
    let lines = split_on(&chars, '\n');
    hashline_view(&lines)
}

/// The hashlines of the first `n` of `rows`, numbered from `start`.
pub open spec fn hashlines_from(rows: Seq<Seq<char>>, start: nat, n: int) -> Seq<Seq<char>>
    decreases n,
{
    if n <= 0 {
        Seq::empty()
    } else {
        hashlines_from(rows, start, n - 1).push(hashline((start + n - 1) as nat, rows[n - 1]))
    }
}

/// The lines of a section: the pieces of its text, without the empty piece
/// behind a final line feed.
pub open spec fn section_rows(selected: Seq<char>) -> Seq<Seq<char>> {
    let ps = pieces(selected, '\n');
    if ps.len() > 1 && ps.last().len() == 0 {
        ps.drop_last()
    } else {
        ps
    }
}

/// A section as a read shows it for editing: every line behind its anchor,
/// numbered from `start`.
pub open spec fn hashlined_from(selected: Seq<char>, start: nat) -> Seq<char> {
    let rows = section_rows(selected);
    join(hashlines_from(rows, start, rows.len() as int), "\n"@)
}

/// Renders a section for editing: every line behind its anchor, numbered
/// from `start`.
pub fn hashline_section(selected: &str, start: usize) -> (view: String)
    ensures
        view@ == hashlined_from(selected@, start as nat),
{
    let chars = to_chars(selected);
    let mut lines = split_on(&chars, '\n');
    if lines.len() > 1 && lines[lines.len() - 1].len() == 0 {
        let ghost before = texts(lines@);
        lines.pop();
        assert(texts(lines@) =~= before.drop_last());
    }
    let ghost all = texts(lines@);
    let mut rows: Vec<Vec<char>> = Vec::new();
    let mut i: usize = 0;
    assert(texts(rows@) =~= hashlines_from(all, start as nat, 0));
    while i < lines.len()
        invariant
            i <= lines@.len(),
            all == texts(lines@),
            texts(rows@) == hashlines_from(all, start as nat, i as int),
        decreases lines@.len() - i,
    {
        let ghost before = texts(rows@);
        let text = string_of(&lines[i]);
        let mut row = String::new();
        let number = crate::text::decimal_chars(start as u128 + i as u128);
        push_all(&mut row, &number);
        push_str(&mut row, ":");
        push_hash(&mut row, line_hash(text.as_str()));
        push_str(&mut row, "|");
        push_all(&mut row, &lines[i]);
        assert(row@ =~= hashline((start + i) as nat, lines@[i as int]@));
        let row_chars = to_chars(row.as_str());
        rows.push(row_chars);
        assert(texts(rows@) =~= before.push(hashline((start + i) as nat, lines@[i as int]@)));
        i += 1;
    }
    join_chars(&rows, "\n")
}

// ---------------------------------------------------------------------------
// Edits
// ---------------------------------------------------------------------------

/// The replacement of the lines `start_line..=end_line` by `content`. Empty
/// content deletes the lines; content may hold line feeds.
pub struct Edit {
    pub start_line: usize,
    pub start_hash: u16,
    pub end_line: usize,
    pub end_hash: u16,
    pub content: String,
}

/// How a batch of edits ended.
pub enum EditResult {
    /// All edits were applied: the new content, and how it reads.
    Applied { content: String, view: String },
    /// An anchor did not fit the file, which is unchanged: how it reads now.
    HashMismatch { view: String },
}

/// Whether the anchors of an edit fit the file: the lines exist, in order,
/// and have the hashes that the edit names.
pub open spec fn anchors_hold(lines: Seq<Seq<char>>, e: Edit) -> bool {
    1 <= e.start_line <= e.end_line <= lines.len() && line_hash_of(lines[e.start_line - 1])
        == e.start_hash && line_hash_of(lines[e.end_line - 1]) == e.end_hash
}

/// Whether the anchors of all edits fit the file.
pub open spec fn all_anchors_hold(lines: Seq<Seq<char>>, edits: Seq<Edit>) -> bool {
    forall|i: int| 0 <= i < edits.len() ==> anchors_hold(lines, #[trigger] edits[i])
}

/// The sort key of an edit: its start line, in two halves.
pub open spec fn edit_key(e: Edit) -> Seq<int> {
    seq![e.start_line as int / 0x1_0000_0000, e.start_line as int % 0x1_0000_0000]
}

/// The edits by start line.
pub open spec fn in_line_order(edits: Seq<Edit>) -> Seq<Edit> {
    sorted(edits, by_key(|e: Edit| edit_key(e)))
}

/// Whether the edit behind the `i`-th begins after the `i`-th has ended.
pub open spec fn apart(ordered: Seq<Edit>, i: int) -> bool {
    ordered[i].end_line < ordered[i + 1].start_line
}

/// Whether no edit begins before the one in front of it has ended.
pub open spec fn disjoint(ordered: Seq<Edit>) -> bool {
    forall|i: int| 0 <= i < ordered.len() - 1 ==> #[trigger] apart(ordered, i)
}

/// The lines that an edit puts in place of its range: none for empty
/// content, else the pieces of the content between line feeds.
pub open spec fn replacement(e: Edit) -> Seq<Seq<char>> {
    if e.content@.len() == 0 {
        Seq::empty()
    } else {
        pieces(e.content@, '\n')
    }
}

/// The number of lines of the old file that are dealt with once the first
/// `n` edits are applied.
pub open spec fn consumed(ordered: Seq<Edit>, n: int) -> int {
    if n <= 0 {
        0
    } else {
        ordered[n - 1].end_line as int
    }
}

/// The lines of the new file up to the end of the `n`-th replacement: what
/// the old file has between the ranges, and the replacements instead of the
/// ranges.
pub open spec fn rebuilt(lines: Seq<Seq<char>>, ordered: Seq<Edit>, n: int) -> Seq<Seq<char>>
    decreases n,
{
    if n <= 0 {
        Seq::empty()
    } else {
        rebuilt(lines, ordered, n - 1) + lines.subrange(
            consumed(ordered, n - 1),
            ordered[n - 1].start_line - 1,
        ) + replacement(ordered[n - 1])
    }
}

/// The lines of the file after all edits: every range replaced at once.
pub open spec fn edited_lines(lines: Seq<Seq<char>>, ordered: Seq<Edit>) -> Seq<Seq<char>> {
    rebuilt(lines, ordered, ordered.len() as int) + lines.skip(
        consumed(ordered, ordered.len() as int),
    )
}

/// The content of the file after all edits.
pub open spec fn edited(content: Seq<char>, edits: Seq<Edit>) -> Seq<char> {
    join(edited_lines(pieces(content, '\n'), in_line_order(edits)), "\n"@)
}

/// What a batch of edits leads to.
pub enum Outcome {
    /// An anchor does not fit; nothing is changed.
    Mismatch,
    /// Two edits overlap; nothing is changed.
    Overlap,
    /// All edits are applied.
    Applied,
}

/// What a batch of edits on a file with the given content leads to.
pub open spec fn outcome_of(content: Seq<char>, edits: Seq<Edit>) -> Outcome {
    if !all_anchors_hold(pieces(content, '\n'), edits) {
        Outcome::Mismatch
    } else if !disjoint(in_line_order(edits)) {
        Outcome::Overlap
    } else {
        Outcome::Applied
    }
}

/// The reason given for edits that overlap.
pub open spec fn overlap_reason() -> Seq<char> {
    "edits overlap"@
}

fn anchor_fits(lines: &Vec<Vec<char>>, e: &Edit) -> (b: bool)
    ensures
        b == anchors_hold(texts(lines@), *e),
{
    if !(1 <= e.start_line && e.start_line <= e.end_line && e.end_line <= lines.len()) {
        return false;
    }
    let first = string_of(&lines[e.start_line - 1]);
    if line_hash(first.as_str()) != e.start_hash {
        return false;
    }
    let last = string_of(&lines[e.end_line - 1]);
    line_hash(last.as_str()) == e.end_hash
}

fn copy_edits(edits: &Vec<Edit>) -> (r: Vec<Edit>)
    ensures
        r@ == edits@,
{
    let mut r: Vec<Edit> = Vec::new();
    let mut i: usize = 0;
    while i < edits.len()
        invariant
            i <= edits@.len(),
            r@ == edits@.take(i as int),
        decreases edits@.len() - i,
    {
        let e = &edits[i];
        r.push(
            Edit {
                start_line: e.start_line,
                start_hash: e.start_hash,
                end_line: e.end_line,
                end_hash: e.end_hash,
                content: e.content.clone(),
            },
        );
        i += 1;
        assert(edits@.take(i as int) =~= edits@.take(i - 1).push(edits@[i - 1]));
    }
    assert(edits@.take(edits@.len() as int) =~= edits@);
    r
}

fn order_edits(edits: &Vec<Edit>) -> (ordered: Vec<Edit>)
    ensures
        ordered@ == in_line_order(edits@),
{
    let mut items = copy_edits(edits);
    let mut keys: Vec<Vec<u32>> = Vec::new();
    let mut i: usize = 0;
    while i < items.len()
        invariant
            i <= items@.len(),
            keys@.len() == i,
            forall|j: int| 0 <= j < i ==> ints(#[trigger] keys@[j]@) == edit_key(items@[j]),
        decreases items@.len() - i,
    {
        let line = items[i].start_line as u64;
        let mut key: Vec<u32> = Vec::new();
        key.push((line / 0x1_0000_0000) as u32);
        key.push((line % 0x1_0000_0000) as u32);
        assert(ints(key@) =~= edit_key(items@[i as int]));
        keys.push(key);
        i += 1;
    }
    sort_by_keys(&mut items, keys, Ghost(|e: Edit| edit_key(e)));
    items
}

fn is_disjoint(ordered: &Vec<Edit>) -> (b: bool)
    ensures
        b == disjoint(ordered@),
{
    if ordered.len() == 0 {
        return true;
    }
    let mut i: usize = 0;
    while i < ordered.len() - 1
        invariant
            i <= ordered@.len() - 1,
            forall|j: int| 0 <= j < i ==> #[trigger] apart(ordered@, j),
        decreases ordered@.len() - i,
    {
        if ordered[i].end_line >= ordered[i + 1].start_line {
            assert(!apart(ordered@, i as int));
            return false;
        }
        i += 1;
    }
    true
}

fn push_lines(out: &mut Vec<Vec<char>>, lines: &Vec<Vec<char>>, from: usize, to: usize)
    requires
        from <= to <= lines@.len(),
    ensures
        texts(final(out)@) == texts(old(out)@) + texts(lines@).subrange(from as int, to as int),
{
    let mut i: usize = from;
    assert(texts(out@) + texts(lines@).subrange(from as int, from as int) =~= texts(out@));
    while i < to
        invariant
            from <= i <= to <= lines@.len(),
            texts(out@) == texts(old(out)@) + texts(lines@).subrange(from as int, i as int),
        decreases to - i,
    {
        let ghost before = texts(out@);
        let copy = slice_chars(&lines[i], 0, lines[i].len());
        assert(copy@ =~= lines@[i as int]@);
        out.push(copy);
        assert(texts(out@) =~= before.push(lines@[i as int]@));
        i += 1;
        assert(texts(lines@).subrange(from as int, i as int) =~= texts(lines@).subrange(
            from as int,
            i - 1,
        ).push(lines@[i - 1]@));
    }
}

fn anchors_fit(lines: &Vec<Vec<char>>, edits: &Vec<Edit>) -> (b: bool)
    ensures
        b == all_anchors_hold(texts(lines@), edits@),
{
    let mut i: usize = 0;
    while i < edits.len()
        invariant
            i <= edits@.len(),
            forall|j: int| 0 <= j < i ==> anchors_hold(texts(lines@), #[trigger] edits@[j]),
        decreases edits@.len() - i,
    {
        if !anchor_fits(lines, &edits[i]) {
            return false;
        }
        i += 1;
    }
    true
}

fn rebuild(lines: &Vec<Vec<char>>, ordered: &Vec<Edit>) -> (out: Vec<Vec<char>>)
    requires
        disjoint(ordered@),
        all_anchors_hold(texts(lines@), ordered@),
    ensures
        texts(out@) == edited_lines(texts(lines@), ordered@),
{
    let ghost all = texts(lines@);
    let mut out: Vec<Vec<char>> = Vec::new();
    let mut done: usize = 0;
    let mut k: usize = 0;
    assert(texts(out@) =~= rebuilt(all, ordered@, 0));
    while k < ordered.len()
        invariant
            k <= ordered@.len(),
            all == texts(lines@),
            disjoint(ordered@),
            all_anchors_hold(all, ordered@),
            done == consumed(ordered@, k as int),
            done <= lines@.len(),
            texts(out@) == rebuilt(all, ordered@, k as int),
        decreases ordered@.len() - k,
    {
        let e = &ordered[k];
        assert(anchors_hold(all, ordered@[k as int]));
        proof {
            if k > 0 {
                assert(apart(ordered@, k - 1));
            }
        }
        push_lines(&mut out, lines, done, e.start_line - 1);
        let ghost mid = texts(out@);
        let text = to_chars(e.content.as_str());
        if text.len() > 0 {
            let new_lines = split_on(&text, '\n');
            push_lines(&mut out, &new_lines, 0, new_lines.len());
            assert(texts(new_lines@).subrange(0, new_lines@.len() as int) =~= texts(new_lines@));
        }
        assert(texts(out@) =~= mid + replacement(*e));
        done = e.end_line;
        k += 1;
    }
    push_lines(&mut out, lines, done, lines.len());
    assert(all.subrange(done as int, all.len() as int) =~= all.skip(done as int));
    out
}

/// Applies a batch of edits to the content of a file.
///
/// If an anchor does not fit, nothing is applied, and the result shows how
/// the file reads now. If two edits overlap, nothing is applied, and the
/// batch is rejected. Else every range is replaced, all at once, and the
/// result holds the new content and how it reads.
pub fn apply_edits(content: &str, edits: &Vec<Edit>) -> (result: Result<EditResult, TilthError>)
    ensures
        match outcome_of(content@, edits@) {
            Outcome::Mismatch => result matches Ok(EditResult::HashMismatch { view }) && view@
                == hashlined(content@),
            Outcome::Overlap => result matches Err(TilthError::InvalidQuery { query, reason })
                && query@ == "edits"@ && reason@ == overlap_reason(),
            Outcome::Applied => result matches Ok(EditResult::Applied { content: c, view })
                && c@ == edited(content@, edits@) && view@ == hashlined(c@),
        },
{
    let chars = to_chars(content);
    let lines = split_on(&chars, '\n');
    if !anchors_fit(&lines, edits) {
        return Ok(EditResult::HashMismatch { view: hashline_view(&lines) });
    }
    let ordered = order_edits(edits);
    if !is_disjoint(&ordered) {
        return Err(
            TilthError::InvalidQuery {
                query: "edits".to_owned(),
                reason: "edits overlap".to_owned(),
            },
        );
    }
    proof {
        lemma_ordered_anchors(texts(lines@), edits@);
    }
    let out = rebuild(&lines, &ordered);
    let new_content = join_chars(&out, "\n");
    let view = hashline_content(new_content.as_str());
    Ok(EditResult::Applied { content: new_content, view })
}

/// Edits whose anchors fit keep fitting when they are put in line order.
pub proof fn lemma_ordered_anchors(lines: Seq<Seq<char>>, edits: Seq<Edit>)
    requires
        all_anchors_hold(lines, edits),
    ensures
        all_anchors_hold(lines, in_line_order(edits)),
{
    let lt = by_key(|e: Edit| edit_key(e));
    crate::order::lemma_by_key_asymmetric(|e: Edit| edit_key(e));
    crate::order::lemma_sorted_in_order(edits, lt);
    let ordered = in_line_order(edits);
    assert forall|i: int| 0 <= i < ordered.len() implies anchors_hold(lines, #[trigger] ordered[i]) by {
        assert(ordered.to_multiset().count(ordered[i]) > 0) by {
            ordered.to_multiset_ensures();
            assert(ordered.contains(ordered[i]));
        }
        assert(edits.to_multiset().count(ordered[i]) > 0);
        edits.to_multiset_ensures();
        assert(edits.contains(ordered[i]));
        let j = choose|j: int| 0 <= j < edits.len() && edits[j] == ordered[i];
        assert(anchors_hold(lines, edits[j]));
    }
}

// ---------------------------------------------------------------------------
// Round trips
// ---------------------------------------------------------------------------

/// Joining puts the separator between a first part and the rest.
pub proof fn lemma_join_first(first: Seq<char>, rest: Seq<Seq<char>>, sep: Seq<char>)
    requires
        rest.len() > 0,
    ensures
        join(seq![first] + rest, sep) == first + sep + join(rest, sep),
    decreases rest.len(),
{
    let all = seq![first] + rest;
    assert(all.drop_last() =~= seq![first] + rest.drop_last());
    assert(all.last() == rest.last());
    if rest.len() == 1 {
        assert(seq![first] + rest.drop_last() =~= seq![first]);
        assert(join(seq![first], sep) == first);
        assert(join(rest, sep) == rest[0]);
        assert(join(all, sep) =~= first + sep + rest.last());
    } else {
        lemma_join_first(first, rest.drop_last(), sep);
        assert(join(all, sep) =~= (first + sep + join(rest.drop_last(), sep)) + sep + rest.last());
        assert(join(rest, sep) =~= join(rest.drop_last(), sep) + sep + rest.last());
        assert(join(all, sep) =~= first + sep + join(rest, sep));
    }
}

/// A text has at least one piece, and no piece holds the separator.
pub proof fn lemma_pieces_shape(s: Seq<char>, sep: char)
    ensures
        pieces(s, sep).len() >= 1,
        forall|i: int, j: int|
            0 <= i < pieces(s, sep).len() && 0 <= j < pieces(s, sep)[i].len() ==> pieces(
                s,
                sep,
            )[i][j] != sep,
    decreases s.len(),
{
    lemma_first_index_is_first(s, sep);
    let k = first_index(s, sep);
    if k < 0 || k >= s.len() {
    } else {
        lemma_pieces_shape(s.skip(k + 1), sep);
        let rest = pieces(s.skip(k + 1), sep);
        assert forall|i: int, j: int|
            0 <= i < pieces(s, sep).len() && 0 <= j < pieces(s, sep)[i].len() implies pieces(
            s,
            sep,
        )[i][j] != sep by {
            if i > 0 {
                assert(pieces(s, sep)[i] == rest[i - 1]);
            }
        }
    }
}

/// `first_index` points at the first separator: nothing in front of it is
/// one, and it lies within the text or just behind it.
pub proof fn lemma_first_index_is_first(s: Seq<char>, sep: char)
    ensures
        0 <= first_index(s, sep) <= s.len(),
        forall|j: int| 0 <= j < first_index(s, sep) ==> s[j] != sep,
        first_index(s, sep) < s.len() ==> s[first_index(s, sep)] == sep,
    decreases s.len(),
{
    if s.len() == 0 || s[0] == sep {
    } else {
        lemma_first_index_is_first(s.drop_first(), sep);
        assert forall|j: int| 0 <= j < first_index(s, sep) implies s[j] != sep by {
            if j > 0 {
                assert(s[j] == s.drop_first()[j - 1]);
            }
        }
    }
}

/// The pieces of a text, joined by the separator, are the text.
pub proof fn lemma_join_pieces(s: Seq<char>, sep: char)
    ensures
        join(pieces(s, sep), seq![sep]) == s,
    decreases s.len(),
{
    lemma_first_index_is_first(s, sep);
    let k = first_index(s, sep);
    if k < 0 || k >= s.len() {
    } else {
        let rest = s.skip(k + 1);
        lemma_join_pieces(rest, sep);
        lemma_pieces_shape(rest, sep);
        lemma_join_first(s.take(k), pieces(rest, sep), seq![sep]);
        assert(s =~= s.take(k) + seq![sep] + rest);
    }
}

/// A batch of one edit is in line order as it stands.
pub proof fn lemma_single_edit_order(e: Edit)
    ensures
        in_line_order(seq![e]) == seq![e],
{
    let lt = by_key(|x: Edit| edit_key(x));
    let one = seq![e];
    assert(one.drop_last() =~= Seq::<Edit>::empty());
    assert(sorted(one.drop_last(), lt) =~= Seq::<Edit>::empty());
    assert(crate::order::insert_sorted(Seq::<Edit>::empty(), e, lt) =~= seq![e]);
}

/// Parts that hold no separator, joined by the separator, fall into the
/// same parts again.
pub proof fn lemma_pieces_join(parts: Seq<Seq<char>>, sep: char)
    requires
        parts.len() >= 1,
        forall|i: int, j: int|
            0 <= i < parts.len() && 0 <= j < parts[i].len() ==> #[trigger] parts[i][j] != sep,
    ensures
        pieces(join(parts, seq![sep]), sep) == parts,
    decreases parts.len(),
{
    let first = parts[0];
    let rest = parts.drop_first();
    assert(parts =~= seq![first] + rest);
    assert forall|j: int| 0 <= j < first.len() implies first[j] != sep by {
        assert(parts[0][j] != sep);
    }
    if rest.len() == 0 {
        assert(join(parts, seq![sep]) == first);
        lemma_first_index(first, sep, first.len() as int);
        assert(pieces(first, sep) =~= seq![first]);
    } else {
        assert forall|i: int, j: int|
            0 <= i < rest.len() && 0 <= j < rest[i].len() implies #[trigger] rest[i][j] != sep by {
            assert(rest[i][j] == parts[i + 1][j]);
        }
        lemma_pieces_join(rest, sep);
        lemma_join_first(first, rest, seq![sep]);
        let all = join(parts, seq![sep]);
        let tail = join(rest, seq![sep]);
        assert(all =~= first + seq![sep] + tail);
        let k = first.len() as int;
        assert(all[k] == sep);
        assert forall|j: int| 0 <= j < k implies all[j] != sep by {
            assert(all[j] == first[j]);
        }
        lemma_first_index(all, sep, k);
        assert(all.take(k) =~= first);
        assert(all.skip(k + 1) =~= tail);
        assert(pieces(all, sep) =~= seq![first] + pieces(tail, sep));
    }
}

/// The round trip: an edit that replaces a range of lines by their own text,
/// anchored by the hashes of its first and last line, is applied and leaves
/// the content as it is, byte for byte. (Empty content stands for deletion,
/// so the range must not be a single empty line.)
pub proof fn lemma_identity_edit(content: Seq<char>, e: Edit)
    requires
        anchors_hold(pieces(content, '\n'), e),
        e.content@ == join(
            pieces(content, '\n').subrange(e.start_line - 1, e.end_line as int),
            "\n"@,
        ),
        e.content@.len() > 0,
    ensures
        outcome_of(content, seq![e]) is Applied,
        edited(content, seq![e]) == content,
{
    reveal_strlit("\n");
    assert("\n"@ =~= seq!['\n']);
    let lines = pieces(content, '\n');
    let from = e.start_line - 1;
    let to = e.end_line as int;
    let range = lines.subrange(from, to);
    lemma_single_edit_order(e);
    let ordered = in_line_order(seq![e]);
    assert(ordered == seq![e]);
    assert(disjoint(ordered));
    assert(all_anchors_hold(lines, seq![e]));
    lemma_pieces_shape(content, '\n');
    assert forall|i: int, j: int|
        0 <= i < range.len() && 0 <= j < range[i].len() implies #[trigger] range[i][j]
        != '\n' by {
        assert(range[i][j] == lines[from + i][j]);
    }
    lemma_pieces_join(range, '\n');
    assert(replacement(e) == range);
    assert(rebuilt(lines, ordered, 0) =~= Seq::<Seq<char>>::empty());
    assert(rebuilt(lines, ordered, 1) =~= lines.subrange(0, from) + range);
    assert(edited_lines(lines, ordered) =~= lines);
    lemma_join_pieces(content, '\n');
}

/// Edits that do not fit the file change nothing: the outcome is a mismatch
/// whatever else the batch holds.
pub proof fn lemma_stale_edit_is_refused(content: Seq<char>, edits: Seq<Edit>, i: int)
    requires
        0 <= i < edits.len(),
        !anchors_hold(pieces(content, '\n'), edits[i]),
    ensures
        outcome_of(content, edits) is Mismatch,
{
}

} // verus!
