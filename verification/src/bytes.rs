//! Byte-level helpers: searching for a byte, and turning bytes into text.

use vstd::prelude::*;
use vstd::slice::slice_subrange;
use vstd::utf8::{decode_utf8, valid_utf8};

verus! {

/// `memchr::memchr` returns the index of the first occurrence of `needle` in
/// `haystack`, or `None` if it does not occur.
pub assume_specification[ memchr::memchr ](needle: u8, haystack: &[u8]) -> (r: Option<usize>)
    ensures
        match r {
            Some(i) => i < haystack@.len() && haystack@[i as int] == needle && forall|j: int|
                0 <= j < i ==> haystack@[j] != needle,
            None => forall|j: int| 0 <= j < haystack@.len() ==> haystack@[j] != needle,
        },
;

/// The text that `String::from_utf8_lossy` makes of `bytes`.
pub uninterp spec fn lossy_text(bytes: Seq<u8>) -> Seq<char>;

/// Calls `String::from_utf8_lossy`. Claimed: valid UTF-8 gives the text it
/// encodes; what other bytes give depends on the bytes alone.
#[verifier::external_body]
pub(crate) fn text_lossy(bytes: &[u8]) -> (s: String)
    ensures
        s@ == lossy_text(bytes@),
        valid_utf8(bytes@) ==> s@ == decode_utf8(bytes@),
{
    String::from_utf8_lossy(bytes).into_owned()
}

/// Reads bytes as text: valid UTF-8 gives the text that it encodes, byte for
/// byte; what other bytes give is `lossy_text`.
pub fn decode_lossy(bytes: &[u8]) -> (s: String)
    ensures
        s@ == lossy_text(bytes@),
        valid_utf8(bytes@) ==> s@ == decode_utf8(bytes@),
{
    text_lossy(bytes)
}

/// Calls `std::str::from_utf8`. Claimed: the result is `Some` exactly for
/// valid UTF-8, and then holds the text that the bytes encode.
#[verifier::external_body]
pub(crate) fn text_strict(bytes: &[u8]) -> (r: Option<String>)
    ensures
        r.is_some() == valid_utf8(bytes@),
        r.is_some() ==> r.unwrap()@ == decode_utf8(bytes@),
{
    std::str::from_utf8(bytes).ok().map(|s| s.to_owned())
}

/// The index of the first `b` in `s` at or after `from`, or `s.len()` if
/// there is none.
pub open spec fn next_byte(s: Seq<u8>, b: u8, from: int) -> int
    decreases s.len() - from,
{
    if from >= s.len() || from < 0 {
        s.len() as int
    } else if s[from] == b {
        from
    } else {
        next_byte(s, b, from + 1)
    }
}

/// `next_byte` is the least index from `from` on that holds `b`.
pub proof fn lemma_next_byte(s: Seq<u8>, b: u8, from: int, k: int)
    requires
        0 <= from <= k <= s.len(),
        forall|j: int| from <= j < k ==> s[j] != b,
        k == s.len() || s[k] == b,
    ensures
        next_byte(s, b, from) == k,
    decreases k - from,
{
    if from < k {
        lemma_next_byte(s, b, from + 1, k);
    }
}

/// The position of the first `b` in `buf` at or after `from`, or `buf.len()`.
pub fn find_byte(buf: &[u8], b: u8, from: usize) -> (at: usize)
    requires
        from <= buf@.len(),
    ensures
        at == next_byte(buf@, b, from as int),
        from <= at <= buf@.len(),
{
    let rest = slice_subrange(buf, from, buf.len());
    match memchr::memchr(b, rest) {
        Some(i) => {
            proof {
                assert forall|j: int| from <= j < from + i implies buf@[j] != b by {
                    assert(rest@[j - from] == buf@[j]);
                }
                assert(rest@[i as int] == buf@[from + i]);
                lemma_next_byte(buf@, b, from as int, from + i);
            }
            from + i
        },
        None => {
            proof {
                assert forall|j: int| from <= j < buf@.len() implies buf@[j] != b by {
                    assert(rest@[j - from] == buf@[j]);
                }
                lemma_next_byte(buf@, b, from as int, buf@.len() as int);
            }
            buf.len()
        },
    }
}

/// `next_byte` never points before `from` or past the end.
pub proof fn lemma_next_byte_bounds(s: Seq<u8>, b: u8, from: int)
    requires
        0 <= from <= s.len(),
    ensures
        from <= next_byte(s, b, from) <= s.len(),
    decreases s.len() - from,
{
    if from < s.len() && s[from] != b {
        lemma_next_byte_bounds(s, b, from + 1);
    }
}

/// The positions just behind each line feed of `buf`, in order, behind a
/// leading zero: where the lines of `buf` begin.
pub open spec fn line_starts(s: Seq<u8>, from: int) -> Seq<int>
    decreases s.len() - from,
{
    let at = next_byte(s, 10u8, from);
    if from < 0 || at >= s.len() || at < from {
        Seq::empty()
    } else {
        seq![at + 1] + line_starts(s, at + 1)
    }
}

/// Where the lines of `buf` begin: zero, and the position behind each line
/// feed.
pub fn line_offsets(buf: &[u8]) -> (offsets: Vec<usize>)
    ensures
        offsets@.len() >= 1,
        offsets@.len() == 1 + line_starts(buf@, 0).len(),
        offsets@[0] == 0,
        forall|i: int| 1 <= i < offsets@.len() ==> offsets@[i] == line_starts(buf@, 0)[i - 1],
        forall|i: int| 0 <= i < offsets@.len() ==> offsets@[i] <= buf@.len(),
        forall|i: int, j: int| 0 <= i <= j < offsets@.len() ==> offsets@[i] <= offsets@[j],
{
    let mut offsets: Vec<usize> = Vec::new();
    offsets.push(0);
    let mut pos: usize = 0;
    let ghost all = line_starts(buf@, 0);
    assert(all =~= Seq::<int>::empty() + line_starts(buf@, 0));
    loop
        invariant
            pos <= buf@.len(),
            offsets@.len() >= 1,
            offsets@[0] == 0,
            offsets@.last() == pos,
            all == line_starts(buf@, 0),
            all.len() >= offsets@.len() - 1,
            all == all.take(offsets@.len() - 1) + line_starts(buf@, pos as int),
            forall|i: int| 1 <= i < offsets@.len() ==> offsets@[i] == all[i - 1],
            forall|i: int| 0 <= i < offsets@.len() ==> offsets@[i] <= buf@.len(),
            forall|i: int, j: int| 0 <= i <= j < offsets@.len() ==> offsets@[i] <= offsets@[j],
        ensures
            offsets@.len() >= 1,
            offsets@.len() == 1 + all.len(),
            offsets@[0] == 0,
            all == line_starts(buf@, 0),
            forall|i: int| 1 <= i < offsets@.len() ==> offsets@[i] == all[i - 1],
            forall|i: int| 0 <= i < offsets@.len() ==> offsets@[i] <= buf@.len(),
            forall|i: int, j: int| 0 <= i <= j < offsets@.len() ==> offsets@[i] <= offsets@[j],
        decreases buf@.len() - pos,
    {
        let at = find_byte(buf, 10u8, pos);
        if at >= buf.len() {
            proof {
                assert(line_starts(buf@, pos as int) =~= Seq::<int>::empty());
                assert(all =~= all.take(offsets@.len() - 1));
            }
            break;
        }
        let ghost n = offsets@.len() - 1;
        proof {
            let rest = line_starts(buf@, pos as int);
            assert(rest =~= seq![at + 1] + line_starts(buf@, at + 1));
            assert(all[n] == at + 1);
            assert(all.take(n + 1) =~= all.take(n).push(at + 1));
            assert(all =~= all.take(n + 1) + line_starts(buf@, at + 1));
        }
        offsets.push(at + 1);
        pos = at + 1;
    }
    offsets
}

// ---------------------------------------------------------------------------
// Lines of bytes
// ---------------------------------------------------------------------------

/// `line` without one trailing carriage return.
pub open spec fn strip_cr_byte(line: Seq<u8>) -> Seq<u8> {
    if line.len() > 0 && line.last() == 13u8 {
        line.drop_last()
    } else {
        line
    }
}

/// The lines of `buf` from `from` on: they end at a line feed, or at a
/// carriage return and a line feed; a last line need not end at all.
pub open spec fn byte_lines_from(buf: Seq<u8>, from: int) -> Seq<Seq<u8>>
    decreases buf.len() - from,
{
    if from < 0 || from >= buf.len() {
        Seq::empty()
    } else {
        let at = next_byte(buf, 10u8, from);
        if at < from || at >= buf.len() {
            seq![buf.subrange(from, buf.len() as int)]
        } else {
            seq![strip_cr_byte(buf.subrange(from, at))] + byte_lines_from(buf, at + 1)
        }
    }
}

/// The lines of `buf`.
pub open spec fn byte_lines(buf: Seq<u8>) -> Seq<Seq<u8>> {
    byte_lines_from(buf, 0)
}

/// The byte sequences held by a vector of byte vectors.
pub open spec fn byte_texts(ls: Seq<Vec<u8>>) -> Seq<Seq<u8>> {
    Seq::new(ls.len(), |i: int| ls[i]@)
}

/// Splits `buf` into its lines.
pub fn split_byte_lines(buf: &[u8]) -> (ls: Vec<Vec<u8>>)
    ensures
        byte_texts(ls@) == byte_lines(buf@),
{
    let mut ls: Vec<Vec<u8>> = Vec::new();
    let mut pos: usize = 0;
    assert(byte_texts(ls@) + byte_lines_from(buf@, 0) =~= byte_lines(buf@));
    while pos < buf.len()
        invariant
            pos <= buf@.len(),
            byte_lines(buf@) == byte_texts(ls@) + byte_lines_from(buf@, pos as int),
        decreases buf@.len() - pos,
    {
        let ghost before = byte_texts(ls@);
        let at = find_byte(buf, 10u8, pos);
        if at < buf.len() {
            let mut end = at;
            if end > pos && buf[end - 1] == 13u8 {
                end = end - 1;
            }
            let line = vstd::slice::slice_to_vec(slice_subrange(buf, pos, end));
            assert(line@ =~= strip_cr_byte(buf@.subrange(pos as int, at as int)));
            ls.push(line);
            assert(byte_texts(ls@) =~= before.push(line@));
            assert(before.push(line@) + byte_lines_from(buf@, at + 1) =~= before + (seq![line@]
                + byte_lines_from(buf@, at + 1)));
            pos = at + 1;
        } else {
            let line = vstd::slice::slice_to_vec(slice_subrange(buf, pos, buf.len()));
            ls.push(line);
            assert(byte_texts(ls@) =~= before.push(line@));
            assert(before.push(line@) =~= before + seq![line@]);
            pos = buf.len();
        }
    }
    assert(byte_texts(ls@) + Seq::<Seq<u8>>::empty() =~= byte_texts(ls@));
    ls
}

} // verus!
