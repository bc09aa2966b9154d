//! Character-level text utilities shared by every renderer and scanner.
//!
//! All text in this crate is modelled as `Seq<char>`. Executable code works on
//! `Vec<char>` for random access and on `String` for output.

use vstd::prelude::*;

verus! {

/// `String::push` appends exactly one character to the end of the string.
pub assume_specification[ String::push ](s: &mut String, ch: char)
    ensures
        final(s)@ == old(s)@.push(ch),
;

// ---------------------------------------------------------------------------
// Conversions
// ---------------------------------------------------------------------------

/// The characters of `s`, in order.
pub fn to_chars(s: &str) -> (v: Vec<char>)
    ensures
        v@ == s@,
{
    let mut v: Vec<char> = Vec::new();
    for c in it: s.chars()
        invariant
            v@ == it.seq().take(it.index() as int),
            it.seq() == s@,
    {
        v.push(c);
    }
    v
}

/// Appends `v[from..to]` to `out`.
pub fn push_chars(out: &mut String, v: &Vec<char>, from: usize, to: usize)
    requires
        from <= to <= v.len(),
    ensures
        final(out)@ == old(out)@ + v@.subrange(from as int, to as int),
{
    let mut i: usize = from;
    while i < to
        invariant
            from <= i <= to <= v.len(),
            out@ == old(out)@ + v@.subrange(from as int, i as int),
        decreases to - i,
    {
        out.push(v[i]);
        i += 1;
        assert(v@.subrange(from as int, i as int) =~= v@.subrange(from as int, i - 1).push(
            v@[i - 1],
        ));
    }
}

/// Appends all of `v` to `out`.
pub fn push_all(out: &mut String, v: &Vec<char>)
    ensures
        final(out)@ == old(out)@ + v@,
{
    push_chars(out, v, 0, v.len());
    assert(v@.subrange(0, v.len() as int) =~= v@);
}

/// A fresh string holding the characters of `v`.
pub fn string_of(v: &Vec<char>) -> (s: String)
    ensures
        s@ == v@,
{
    let mut s = String::new();
    push_all(&mut s, v);
    assert(Seq::<char>::empty() + v@ =~= v@);
    s
}

/// A fresh vector holding `v[from..to]`.
pub fn slice_chars(v: &Vec<char>, from: usize, to: usize) -> (r: Vec<char>)
    requires
        from <= to <= v.len(),
    ensures
        r@ == v@.subrange(from as int, to as int),
{
    let mut r: Vec<char> = Vec::new();
    let mut i: usize = from;
    while i < to
        invariant
            from <= i <= to <= v.len(),
            r@ == v@.subrange(from as int, i as int),
        decreases to - i,
    {
        r.push(v[i]);
        i += 1;
        assert(v@.subrange(from as int, i as int) =~= v@.subrange(from as int, i - 1).push(
            v@[i - 1],
        ));
    }
    r
}

/// Whether two strings hold the same characters.
pub fn str_eq(a: &str, b: &str) -> (r: bool)
    ensures
        r == (a@ == b@),
{
    let x = to_chars(a);
    let y = to_chars(b);
    chars_eq(&x, &y)
}

/// Whether two character vectors are equal.
pub fn chars_eq(a: &Vec<char>, b: &Vec<char>) -> (r: bool)
    ensures
        r == (a@ == b@),
{
    if a.len() != b.len() {
        return false;
    }
    let mut i: usize = 0;
    while i < a.len()
        invariant
            a.len() == b.len(),
            i <= a.len(),
            a@.take(i as int) == b@.take(i as int),
        decreases a.len() - i,
    {
        if a[i] != b[i] {
            return false;
        }
        i += 1;
        assert(a@.take(i as int) =~= a@.take(i - 1).push(a@[i - 1]));
        assert(b@.take(i as int) =~= b@.take(i - 1).push(b@[i - 1]));
    }
    assert(a@.take(a.len() as int) =~= a@);
    assert(b@.take(b.len() as int) =~= b@);
    true
}

// ---------------------------------------------------------------------------
// Decimal numbers
// ---------------------------------------------------------------------------

/// The character for a single decimal digit.
pub open spec fn digit_char(d: int) -> char {
    if d == 0 {
        '0'
    } else if d == 1 {
        '1'
    } else if d == 2 {
        '2'
    } else if d == 3 {
        '3'
    } else if d == 4 {
        '4'
    } else if d == 5 {
        '5'
    } else if d == 6 {
        '6'
    } else if d == 7 {
        '7'
    } else if d == 8 {
        '8'
    } else {
        '9'
    }
}

/// The decimal rendering of `n`, without sign or leading zeros.
pub open spec fn decimal(n: nat) -> Seq<char>
    decreases n,
{
    if n < 10 {
        seq![digit_char(n as int)]
    } else {
        decimal(n / 10).push(digit_char((n % 10) as int))
    }
}

/// The value that a digit character stands for, if it is one.
pub open spec fn digit_value(c: char) -> Option<nat> {
    if c == '0' {
        Some(0)
    } else if c == '1' {
        Some(1)
    } else if c == '2' {
        Some(2)
    } else if c == '3' {
        Some(3)
    } else if c == '4' {
        Some(4)
    } else if c == '5' {
        Some(5)
    } else if c == '6' {
        Some(6)
    } else if c == '7' {
        Some(7)
    } else if c == '8' {
        Some(8)
    } else if c == '9' {
        Some(9)
    } else {
        None
    }
}

fn digit_of(d: u128) -> (c: char)
    requires
        d < 10,
    ensures
        c == digit_char(d as int),
{
    if d == 0 {
        '0'
    } else if d == 1 {
        '1'
    } else if d == 2 {
        '2'
    } else if d == 3 {
        '3'
    } else if d == 4 {
        '4'
    } else if d == 5 {
        '5'
    } else if d == 6 {
        '6'
    } else if d == 7 {
        '7'
    } else if d == 8 {
        '8'
    } else {
        '9'
    }
}

/// The decimal digits of `n`.
pub fn decimal_chars(n: u128) -> (v: Vec<char>)
    ensures
        v@ == decimal(n as nat),
        v@.len() >= 1,
    decreases n,
{
    if n < 10 {
        let mut v: Vec<char> = Vec::new();
        v.push(digit_of(n));
        assert(v@ =~= seq![digit_char(n as int)]);
        v
    } else {
        let mut v = decimal_chars(n / 10);
        v.push(digit_of(n % 10));
        v
    }
}

/// Appends the decimal rendering of `n` to `out`.
pub fn push_decimal(out: &mut String, n: u64)
    ensures
        final(out)@ == old(out)@ + decimal(n as nat),
{
    let v = decimal_chars(n as u128);
    push_all(out, &v);
}

/// `count` copies of `c`.
pub open spec fn repeat(c: char, count: nat) -> Seq<char> {
    Seq::new(count, |i: int| c)
}

/// Appends `count` copies of `c` to `out`.
pub fn push_repeat(out: &mut String, c: char, count: usize)
    ensures
        final(out)@ == old(out)@ + repeat(c, count as nat),
{
    let mut i: usize = 0;
    while i < count
        invariant
            i <= count,
            out@ == old(out)@ + repeat(c, i as nat),
        decreases count - i,
    {
        out.push(c);
        i += 1;
        assert(repeat(c, i as nat) =~= repeat(c, (i - 1) as nat).push(c));
    }
    assert(repeat(c, 0) =~= Seq::<char>::empty());
}

/// `n` in decimal, right-aligned with spaces to at least `width` characters.
pub open spec fn padded_decimal(n: nat, width: nat) -> Seq<char> {
    let d = decimal(n);
    if d.len() >= width {
        d
    } else {
        repeat(' ', (width - d.len()) as nat) + d
    }
}

/// Appends `n` in decimal, right-aligned to `width` characters.
pub fn push_padded_decimal(out: &mut String, n: u128, width: usize)
    ensures
        final(out)@ == old(out)@ + padded_decimal(n as nat, width as nat),
{
    let v = decimal_chars(n);
    if v.len() < width {
        push_repeat(out, ' ', width - v.len());
    }
    push_all(out, &v);
    assert(old(out)@ + repeat(' ', (width - v.len()) as nat) + v@ =~= old(out)@ + (repeat(
        ' ',
        (width - v.len()) as nat,
    ) + v@));
}

/// Appends a string slice to `out`.
pub fn push_str(out: &mut String, s: &str)
    ensures
        final(out)@ == old(out)@ + s@,
{
    out.append(s);
}

// ---------------------------------------------------------------------------
// Whitespace and trimming
// ---------------------------------------------------------------------------

/// Whether `c` has the Unicode `White_Space` property.
pub open spec fn is_space(c: char) -> bool {
    let u = c as u32;
    (0x09 <= u <= 0x0D) || u == 0x20 || u == 0x85 || u == 0xA0 || u == 0x1680 || (0x2000 <= u
        <= 0x200A) || u == 0x2028 || u == 0x2029 || u == 0x202F || u == 0x205F || u == 0x3000
}

/// Executable form of [`is_space`].
pub fn is_space_char(c: char) -> (b: bool)
    ensures
        b == is_space(c),
{
    let u: u32 = c as u32;
    (0x09 <= u && u <= 0x0D) || u == 0x20 || u == 0x85 || u == 0xA0 || u == 0x1680 || (0x2000 <= u
        && u <= 0x200A) || u == 0x2028 || u == 0x2029 || u == 0x202F || u == 0x205F || u
        == 0x3000
}

/// `s` without its leading whitespace.
pub open spec fn trim_start(s: Seq<char>) -> Seq<char>
    decreases s.len(),
{
    if s.len() > 0 && is_space(s[0]) {
        trim_start(s.drop_first())
    } else {
        s
    }
}

/// `s` without its trailing whitespace.
pub open spec fn trim_end(s: Seq<char>) -> Seq<char>
    decreases s.len(),
{
    if s.len() > 0 && is_space(s.last()) {
        trim_end(s.drop_last())
    } else {
        s
    }
}

/// `s` without leading and trailing whitespace.
pub open spec fn trim(s: Seq<char>) -> Seq<char> {
    trim_end(trim_start(s))
}

/// Whether `s` is empty or whitespace only.
pub open spec fn is_blank(s: Seq<char>) -> bool {
    trim(s).len() == 0
}

/// The number of leading whitespace characters of `v`.
fn leading_spaces(v: &Vec<char>) -> (k: usize)
    ensures
        k <= v.len(),
        trim_start(v@) == v@.subrange(k as int, v.len() as int),
{
    let mut k: usize = 0;
    assert(v@.subrange(0, v.len() as int) =~= v@);
    while k < v.len() && is_space_char(v[k])
        invariant
            k <= v.len(),
            trim_start(v@) == trim_start(v@.subrange(k as int, v.len() as int)),
        decreases v.len() - k,
    {
        assert(v@.subrange(k as int, v.len() as int).drop_first() =~= v@.subrange(
            k + 1,
            v.len() as int,
        ));
        k += 1;
    }
    k
}

/// The end of `v[from..]` once trailing whitespace is removed.
fn trailing_end(v: &Vec<char>, from: usize) -> (e: usize)
    requires
        from <= v.len(),
    ensures
        from <= e <= v.len(),
        trim_end(v@.subrange(from as int, v.len() as int)) == v@.subrange(from as int, e as int),
{
    let mut e: usize = v.len();
    while e > from && is_space_char(v[e - 1])
        invariant
            from <= e <= v.len(),
            trim_end(v@.subrange(from as int, v.len() as int)) == trim_end(
                v@.subrange(from as int, e as int),
            ),
        decreases e - from,
    {
        assert(v@.subrange(from as int, e as int).drop_last() =~= v@.subrange(
            from as int,
            e - 1,
        ));
        e -= 1;
    }
    e
}

/// A copy of `v` without leading and trailing whitespace.
pub fn trim_chars(v: &Vec<char>) -> (r: Vec<char>)
    ensures
        r@ == trim(v@),
{
    let k = leading_spaces(v);
    let e = trailing_end(v, k);
    slice_chars(v, k, e)
}

// ---------------------------------------------------------------------------
// Prefixes and substrings
// ---------------------------------------------------------------------------

/// Whether `pat` occurs in `text` at offset `at`.
pub open spec fn occurs_at(text: Seq<char>, pat: Seq<char>, at: int) -> bool {
    0 <= at && at + pat.len() <= text.len() && text.subrange(at, at + pat.len()) == pat
}

/// Whether `pat` occurs anywhere in `text`.
pub open spec fn contains_sub(text: Seq<char>, pat: Seq<char>) -> bool {
    exists|at: int| occurs_at(text, pat, at)
}

/// Executable form of [`occurs_at`].
pub fn matches_at(text: &Vec<char>, pat: &Vec<char>, at: usize) -> (r: bool)
    ensures
        r == occurs_at(text@, pat@, at as int),
{
    if pat.len() > text.len() || at > text.len() - pat.len() {
        return false;
    }
    let mut j: usize = 0;
    while j < pat.len()
        invariant
            j <= pat.len(),
            at + pat.len() <= text.len(),
            text@.subrange(at as int, at + j) == pat@.take(j as int),
        decreases pat.len() - j,
    {
        if text[at + j] != pat[j] {
            assert(text@.subrange(at as int, at + pat.len())[j as int] == text@[at + j]);
            return false;
        }
        j += 1;
        assert(text@.subrange(at as int, at + j) =~= text@.subrange(at as int, at + j - 1).push(
            text@[at + j - 1],
        ));
        assert(pat@.take(j as int) =~= pat@.take(j - 1).push(pat@[j - 1]));
    }
    assert(pat@.take(pat.len() as int) =~= pat@);
    true
}

/// Whether `text` begins with `pat`.
pub fn starts_with(text: &Vec<char>, pat: &str) -> (r: bool)
    ensures
        r == pat@.is_prefix_of(text@),
{
    let p = to_chars(pat);
    let r = matches_at(text, &p, 0);
    proof {
        if r {
            assert(text@.subrange(0, 0 + p@.len() as int) =~= text@.subrange(0, p@.len() as int));
        }
        if pat@.is_prefix_of(text@) {
            assert(text@.subrange(0, 0 + p@.len() as int) =~= pat@);
        }
    }
    r
}

/// The first offset at or after `from` where `pat` occurs in `text`.
pub fn find_from(text: &Vec<char>, pat: &Vec<char>, from: usize) -> (r: Option<usize>)
    ensures
        match r {
            Some(at) => from <= at && occurs_at(text@, pat@, at as int) && forall|k: int|
                from <= k < at ==> !occurs_at(text@, pat@, k),
            None => forall|k: int| from <= k ==> !occurs_at(text@, pat@, k),
        },
{
    let mut i: usize = from;
    while i < text.len()
        invariant
            from <= i,
            forall|k: int| from <= k < i ==> !occurs_at(text@, pat@, k),
        decreases text.len() - i,
    {
        if matches_at(text, pat, i) {
            return Some(i);
        }
        i += 1;
    }
    if i == text.len() && matches_at(text, pat, i) {
        return Some(i);
    }
    None
}

/// Whether `text` contains `pat`.
pub fn contains(text: &Vec<char>, pat: &str) -> (r: bool)
    ensures
        r == contains_sub(text@, pat@),
{
    let p = to_chars(pat);
    find_from(text, &p, 0).is_some()
}

/// The first index at or after `from` that holds `c`.
pub fn find_char(text: &Vec<char>, c: char, from: usize) -> (r: Option<usize>)
    ensures
        match r {
            Some(at) => from <= at < text.len() && text@[at as int] == c && forall|k: int|
                from <= k < at ==> text@[k] != c,
            None => forall|k: int| from <= k < text.len() ==> text@[k] != c,
        },
{
    let mut i: usize = from;
    while i < text.len()
        invariant
            from <= i,
            forall|k: int| from <= k < i && k < text.len() ==> text@[k] != c,
        decreases text.len() - i,
    {
        if text[i] == c {
            return Some(i);
        }
        i += 1;
    }
    None
}

// ---------------------------------------------------------------------------
// ASCII case
// ---------------------------------------------------------------------------

/// The ASCII lower-case form of `c`; other characters are unchanged.
pub open spec fn lower_char(c: char) -> char {
    if 'A' <= c <= 'Z' {
        ((c as u8) + 32) as char
    } else {
        c
    }
}

/// The ASCII upper-case form of `c`; other characters are unchanged.
pub open spec fn upper_char(c: char) -> char {
    if 'a' <= c <= 'z' {
        ((c as u8) - 32) as char
    } else {
        c
    }
}

/// `s` with every ASCII letter in lower case.
pub open spec fn ascii_lower(s: Seq<char>) -> Seq<char> {
    Seq::new(s.len(), |i: int| lower_char(s[i]))
}

/// `s` with every ASCII letter in upper case.
pub open spec fn ascii_upper(s: Seq<char>) -> Seq<char> {
    Seq::new(s.len(), |i: int| upper_char(s[i]))
}

fn to_lower(c: char) -> (r: char)
    ensures
        r == lower_char(c),
{
    if 'A' <= c && c <= 'Z' {
        ((c as u8) + 32) as char
    } else {
        c
    }
}

fn to_upper(c: char) -> (r: char)
    ensures
        r == upper_char(c),
{
    if 'a' <= c && c <= 'z' {
        ((c as u8) - 32) as char
    } else {
        c
    }
}

/// A lower-cased copy of `v`.
pub fn lower_chars(v: &Vec<char>) -> (r: Vec<char>)
    ensures
        r@ == ascii_lower(v@),
{
    let mut r: Vec<char> = Vec::new();
    let mut i: usize = 0;
    while i < v.len()
        invariant
            i <= v.len(),
            r@ == ascii_lower(v@.take(i as int)),
        decreases v.len() - i,
    {
        r.push(to_lower(v[i]));
        i += 1;
        assert(ascii_lower(v@.take(i as int)) =~= ascii_lower(v@.take(i - 1)).push(
            lower_char(v@[i - 1]),
        ));
    }
    assert(v@.take(v.len() as int) =~= v@);
    r
}

/// An upper-cased copy of `v`.
pub fn upper_chars(v: &Vec<char>) -> (r: Vec<char>)
    ensures
        r@ == ascii_upper(v@),
{
    let mut r: Vec<char> = Vec::new();
    let mut i: usize = 0;
    while i < v.len()
        invariant
            i <= v.len(),
            r@ == ascii_upper(v@.take(i as int)),
        decreases v.len() - i,
    {
        r.push(to_upper(v[i]));
        i += 1;
        assert(ascii_upper(v@.take(i as int)) =~= ascii_upper(v@.take(i - 1)).push(
            upper_char(v@[i - 1]),
        ));
    }
    assert(v@.take(v.len() as int) =~= v@);
    r
}

// ---------------------------------------------------------------------------
// Lines
// ---------------------------------------------------------------------------

/// The index of the first line feed in `s`, or `s.len()` if there is none.
pub open spec fn first_newline(s: Seq<char>) -> int
    decreases s.len(),
{
    if s.len() == 0 || s[0] == '\n' {
        0
    } else {
        1 + first_newline(s.drop_first())
    }
}

/// `line` without one trailing carriage return.
pub open spec fn strip_cr(line: Seq<char>) -> Seq<char> {
    if line.len() > 0 && line.last() == '\r' {
        line.drop_last()
    } else {
        line
    }
}

/// The lines of `s`.
///
/// Lines end at `\n` or `\r\n`; the terminator is not part of the line, and a
/// final terminator does not open another, empty line.
pub open spec fn lines(s: Seq<char>) -> Seq<Seq<char>>
    decreases s.len(),
{
    if s.len() == 0 {
        Seq::empty()
    } else {
        let k = first_newline(s);
        if k < 0 || k >= s.len() {
            seq![s]
        } else {
            seq![strip_cr(s.take(k))] + lines(s.skip(k + 1))
        }
    }
}

/// The character sequences held by a vector of character vectors.
pub open spec fn texts(ls: Seq<Vec<char>>) -> Seq<Seq<char>> {
    Seq::new(ls.len(), |i: int| ls[i]@)
}

/// The character sequences held by a vector of strings.
pub open spec fn string_views(ls: Seq<String>) -> Seq<Seq<char>> {
    Seq::new(ls.len(), |i: int| ls[i]@)
}

/// `first_newline` is the least index holding a line feed.
pub proof fn lemma_first_newline(s: Seq<char>, k: int)
    requires
        0 <= k <= s.len(),
        forall|j: int| 0 <= j < k ==> s[j] != '\n',
        k == s.len() || s[k] == '\n',
    ensures
        first_newline(s) == k,
    decreases s.len(),
{
    if s.len() == 0 || s[0] == '\n' {
    } else {
        lemma_first_newline(s.drop_first(), k - 1);
    }
}

/// Splits `text` into its lines.
pub fn split_lines(text: &Vec<char>) -> (ls: Vec<Vec<char>>)
    ensures
        texts(ls@) == lines(text@),
{
    let mut ls: Vec<Vec<char>> = Vec::new();
    let mut pos: usize = 0;
    assert(text@.skip(0) =~= text@);
    assert(texts(ls@) + lines(text@.skip(0)) =~= lines(text@));
    while pos < text.len()
        invariant
            pos <= text.len(),
            lines(text@) == texts(ls@) + lines(text@.skip(pos as int)),
        decreases text.len() - pos,
    {
        let ghost rest = text@.skip(pos as int);
        let ghost before = texts(ls@);
        match find_char(text, '\n', pos) {
            Some(nl) => {
                let mut end = nl;
                if end > pos && text[end - 1] == '\r' {
                    end -= 1;
                }
                let line = slice_chars(text, pos, end);
                proof {
                    lemma_first_newline(rest, nl - pos);
                    assert(rest.take(nl - pos) =~= text@.subrange(pos as int, nl as int));
                    assert(strip_cr(rest.take(nl - pos)) =~= line@);
                    assert(rest.skip(nl - pos + 1) =~= text@.skip(nl + 1));
                }
                ls.push(line);
                pos = nl + 1;
                assert(texts(ls@) =~= before.push(line@));
                assert(before.push(line@) + lines(text@.skip(pos as int)) =~= before + (seq![
                    line@,
                ] + lines(text@.skip(pos as int))));
            },
            None => {
                let line = slice_chars(text, pos, text.len());
                proof {
                    lemma_first_newline(rest, rest.len() as int);
                    assert(rest =~= line@);
                    assert(text@.skip(text.len() as int) =~= Seq::<char>::empty());
                }
                ls.push(line);
                pos = text.len();
                assert(texts(ls@) =~= before.push(line@));
                assert(before.push(line@) + lines(text@.skip(pos as int)) =~= before + seq![
                    line@,
                ]);
            },
        }
    }
    assert(text@.skip(text.len() as int) =~= Seq::<char>::empty());
    assert(texts(ls@) + Seq::<Seq<char>>::empty() =~= texts(ls@));
    ls
}

// ---------------------------------------------------------------------------
// Parsing numbers
// ---------------------------------------------------------------------------

/// The number that a run of decimal digits stands for; `None` if the run is
/// empty or holds anything but digits.
pub open spec fn digits_value(s: Seq<char>) -> Option<nat>
    decreases s.len(),
{
    if s.len() == 0 {
        None
    } else {
        match digit_value(s.last()) {
            None => None,
            Some(d) => if s.len() == 1 {
                Some(d)
            } else {
                match digits_value(s.drop_last()) {
                    None => None,
                    Some(v) => Some(v * 10 + d),
                }
            },
        }
    }
}

/// The unsigned number that `s` stands for: an optional `+`, then decimal
/// digits. `None` if `s` has another shape or the number is above `max`.
pub open spec fn unsigned_value(s: Seq<char>, max: nat) -> Option<nat> {
    let body = if s.len() > 0 && s[0] == '+' {
        s.skip(1)
    } else {
        s
    };
    match digits_value(body) {
        Some(v) => if v <= max {
            Some(v)
        } else {
            None
        },
        None => None,
    }
}

/// What is written for a number is read back as that number: the digits of
/// `n` stand for `n`, there is at least one, and each is a digit.
pub proof fn lemma_decimal_value(n: nat)
    ensures
        decimal(n).len() >= 1,
        digits_value(decimal(n)) == Some(n),
        forall|i: int| 0 <= i < decimal(n).len() ==> digit_value(#[trigger] decimal(n)[i]).is_some(),
    decreases n,
{
    if n < 10 {
        assert(digit_value(digit_char(n as int)) == Some(n));
    } else {
        lemma_decimal_value(n / 10);
        let head = decimal(n / 10);
        let d = (n % 10) as int;
        let all = head.push(digit_char(d));
        assert(digit_value(digit_char(d)) == Some(d as nat));
        assert(all.last() == digit_char(d));
        assert(all.drop_last() =~= head);
        assert(digits_value(all) == Some((n / 10) * 10 + d as nat));
        assert forall|i: int| 0 <= i < all.len() implies digit_value(
            #[trigger] all[i],
        ).is_some() by {
            if i < head.len() {
                assert(all[i] == head[i]);
            }
        }
    }
}

/// A longer run of digits never stands for a smaller number.
pub proof fn lemma_digits_grow(s: Seq<char>, k: int)
    requires
        1 <= k <= s.len(),
        digits_value(s).is_some(),
    ensures
        digits_value(s.take(k)).is_some(),
        digits_value(s.take(k)).unwrap() <= digits_value(s).unwrap(),
    decreases s.len(),
{
    if k == s.len() {
        assert(s.take(k) =~= s);
    } else {
        assert(s.drop_last().take(k) =~= s.take(k));
        lemma_digits_grow(s.drop_last(), k);
    }
}

fn digit_of_char(c: char) -> (r: Option<u8>)
    ensures
        match r {
            Some(d) => digit_value(c) == Some(d as nat) && d < 10,
            None => digit_value(c).is_none(),
        },
{
    if c == '0' {
        Some(0)
    } else if c == '1' {
        Some(1)
    } else if c == '2' {
        Some(2)
    } else if c == '3' {
        Some(3)
    } else if c == '4' {
        Some(4)
    } else if c == '5' {
        Some(5)
    } else if c == '6' {
        Some(6)
    } else if c == '7' {
        Some(7)
    } else if c == '8' {
        Some(8)
    } else if c == '9' {
        Some(9)
    } else {
        None
    }
}

/// Parses an unsigned decimal number of at most `max`.
pub fn parse_unsigned(text: &Vec<char>, max: u64) -> (r: Option<u64>)
    ensures
        match r {
            Some(v) => unsigned_value(text@, max as nat) == Some(v as nat),
            None => unsigned_value(text@, max as nat).is_none(),
        },
{
    let start: usize = if text.len() > 0 && text[0] == '+' {
        1
    } else {
        0
    };
    let ghost body = text@.skip(start as int);
    assert(text@.skip(0) =~= text@);
    assert(body == (if text@.len() > 0 && text@[0] == '+' {
        text@.skip(1)
    } else {
        text@
    }));
    if start >= text.len() {
        assert(body.len() == 0);
        return None;
    }
    let mut acc: u128 = 0;
    let mut i: usize = start;
    while i < text.len()
        invariant
            start <= i <= text.len(),
            start < text.len(),
            body == text@.skip(start as int),
            body == (if text@.len() > 0 && text@[0] == '+' {
                text@.skip(1)
            } else {
                text@
            }),
            acc <= max,
            i > start ==> digits_value(body.take(i - start)) == Some(acc as nat),
            i == start ==> acc == 0,
        decreases text.len() - i,
    {
        let ghost prefix = body.take(i - start);
        let ghost next = body.take(i + 1 - start);
        proof {
            assert(next.drop_last() =~= prefix);
            assert(next.last() == text@[i as int]);
        }
        match digit_of_char(text[i]) {
            None => {
                proof {
                    assert(digits_value(next).is_none());
                    if digits_value(body).is_some() {
                        lemma_digits_grow(body, i + 1 - start);
                    }
                }
                return None;
            },
            Some(d) => {
                let value: u128 = acc * 10 + d as u128;
                assert(digits_value(next) == Some(value as nat));
                if value > max as u128 {
                    proof {
                        if digits_value(body).is_some() {
                            lemma_digits_grow(body, i + 1 - start);
                        }
                    }
                    return None;
                }
                acc = value;
            },
        }
        i += 1;
    }
    assert(body.take(text.len() - start) =~= body);
    Some(acc as u64)
}

// ---------------------------------------------------------------------------
// Joining
// ---------------------------------------------------------------------------

/// The parts one after the other, with `sep` between each two.
pub open spec fn join(parts: Seq<Seq<char>>, sep: Seq<char>) -> Seq<char>
    decreases parts.len(),
{
    if parts.len() == 0 {
        Seq::empty()
    } else if parts.len() == 1 {
        parts[0]
    } else {
        join(parts.drop_last(), sep) + sep + parts.last()
    }
}

/// Joins character vectors with `sep` between each two.
pub fn join_chars(parts: &Vec<Vec<char>>, sep: &str) -> (r: String)
    ensures
        r@ == join(texts(parts@), sep@),
{
    let mut out = String::new();
    let mut i: usize = 0;
    assert(texts(parts@).take(0) =~= Seq::<Seq<char>>::empty());
    while i < parts.len()
        invariant
            i <= parts.len(),
            out@ == join(texts(parts@).take(i as int), sep@),
        decreases parts.len() - i,
    {
        let ghost before = out@;
        if i > 0 {
            push_str(&mut out, sep);
        }
        push_all(&mut out, &parts[i]);
        i += 1;
        proof {
            let now = texts(parts@).take(i as int);
            assert(now.drop_last() =~= texts(parts@).take(i - 1));
            assert(now.last() == parts@[i - 1]@);
            if i == 1 {
                assert(out@ =~= parts@[0]@);
            }
        }
    }
    assert(texts(parts@).take(parts.len() as int) =~= texts(parts@));
    out
}

/// Joins strings with `sep` between each two.
pub fn join_strings(parts: &Vec<String>, sep: &str) -> (r: String)
    ensures
        r@ == join(string_views(parts@), sep@),
{
    let mut out = String::new();
    let mut i: usize = 0;
    assert(string_views(parts@).take(0) =~= Seq::<Seq<char>>::empty());
    while i < parts.len()
        invariant
            i <= parts.len(),
            out@ == join(string_views(parts@).take(i as int), sep@),
        decreases parts.len() - i,
    {
        let ghost before = out@;
        if i > 0 {
            push_str(&mut out, sep);
        }
        push_str(&mut out, parts[i].as_str());
        i += 1;
        proof {
            let now = string_views(parts@).take(i as int);
            assert(now.drop_last() =~= string_views(parts@).take(i - 1));
            assert(now.last() == parts@[i - 1]@);
            if i == 1 {
                assert(out@ =~= parts@[0]@);
            }
        }
    }
    assert(string_views(parts@).take(parts.len() as int) =~= string_views(parts@));
    out
}

// ---------------------------------------------------------------------------
// Truncation
// ---------------------------------------------------------------------------

/// The number of bytes that `c` takes in UTF-8.
pub open spec fn utf8_len(c: char) -> nat {
    let u = c as u32;
    if u < 0x80 {
        1
    } else if u < 0x800 {
        2
    } else if u < 0x10000 {
        3
    } else {
        4
    }
}

/// The number of bytes that `s` takes in UTF-8.
pub open spec fn byte_len(s: Seq<char>) -> nat
    decreases s.len(),
{
    if s.len() == 0 {
        0
    } else {
        byte_len(s.drop_last()) + utf8_len(s.last())
    }
}

/// The number of leading characters of `s` that fit into `max` bytes.
pub open spec fn fitting(s: Seq<char>, max: nat, n: int) -> int
    decreases s.len() - n,
{
    if n < 0 || n >= s.len() || byte_len(s.take(n + 1)) > max {
        n
    } else {
        fitting(s, max, n + 1)
    }
}

/// The longest prefix of `s` that takes at most `max` bytes in UTF-8.
pub open spec fn truncated(s: Seq<char>, max: nat) -> Seq<char> {
    s.take(fitting(s, max, 0))
}

fn char_len(c: char) -> (n: usize)
    ensures
        n == utf8_len(c),
        1 <= n <= 4,
{
    let u: u32 = c as u32;
    if u < 0x80 {
        1
    } else if u < 0x800 {
        2
    } else if u < 0x10000 {
        3
    } else {
        4
    }
}

/// The longest prefix of `s` that takes at most `max` bytes in UTF-8: `s` cut
/// at a character boundary.
pub fn truncate_chars(s: &Vec<char>, max: usize) -> (r: Vec<char>)
    ensures
        r@ == truncated(s@, max as nat),
{
    let mut n: usize = 0;
    let mut used: usize = 0;
    assert(s@.take(0) =~= Seq::<char>::empty());
    while n < s.len()
        invariant
            n <= s.len(),
            used <= max,
            used == byte_len(s@.take(n as int)),
            fitting(s@, max as nat, 0) == fitting(s@, max as nat, n as int),
        ensures
            n <= s.len(),
            fitting(s@, max as nat, 0) == n,
        decreases s.len() - n,
    {
        let w = char_len(s[n]);
        proof {
            assert(s@.take(n + 1).drop_last() =~= s@.take(n as int));
            assert(s@.take(n + 1).last() == s@[n as int]);
        }
        if w > max - used {
            break;
        }
        used = used + w;
        n += 1;
    }
    assert(s@.subrange(0, n as int) =~= s@.take(n as int));
    slice_chars(s, 0, n)
}

/// `s` cut at a character boundary to at most `max` bytes.
pub fn truncate_str(s: &str, max: usize) -> (r: String)
    ensures
        r@ == truncated(s@, max as nat),
{
    let chars = to_chars(s);
    let cut = truncate_chars(&chars, max);
    string_of(&cut)
}

/// A prefix never takes more bytes than the whole.
pub proof fn lemma_byte_len_grows(s: Seq<char>, n: int)
    requires
        0 <= n <= s.len(),
    ensures
        byte_len(s.take(n)) <= byte_len(s),
    decreases s.len() - n,
{
    if n == s.len() {
        assert(s.take(n) =~= s);
    } else {
        lemma_byte_len_grows(s, n + 1);
        assert(s.take(n + 1).drop_last() =~= s.take(n));
    }
}

/// A text takes at most four bytes per character.
pub proof fn lemma_byte_len_bound(s: Seq<char>)
    ensures
        byte_len(s) <= 4 * s.len(),
    decreases s.len(),
{
    if s.len() > 0 {
        lemma_byte_len_bound(s.drop_last());
    }
}

/// What `fitting` counts lies within the text, and every prefix up to there
/// fits.
pub proof fn lemma_fitting(s: Seq<char>, max: nat, n: int)
    requires
        0 <= n <= s.len(),
        byte_len(s.take(n)) <= max,
    ensures
        n <= fitting(s, max, n) <= s.len(),
        byte_len(s.take(fitting(s, max, n))) <= max,
        fitting(s, max, n) < s.len() ==> byte_len(s.take(fitting(s, max, n) + 1)) > max,
    decreases s.len() - n,
{
    if n < s.len() && byte_len(s.take(n + 1)) <= max {
        lemma_fitting(s, max, n + 1);
    }
}

/// A truncated text is a prefix that fits.
pub proof fn lemma_truncated(s: Seq<char>, max: nat)
    ensures
        truncated(s, max).len() <= s.len(),
        byte_len(truncated(s, max)) <= max,
{
    assert(s.take(0) =~= Seq::<char>::empty());
    lemma_fitting(s, max, 0);
}

/// A text is cut exactly if it does not fit.
pub proof fn lemma_truncated_all_iff(s: Seq<char>, max: nat)
    ensures
        (truncated(s, max).len() == s.len()) == (byte_len(s) <= max),
        byte_len(s) <= max ==> truncated(s, max) == s,
{
    assert(s.take(0) =~= Seq::<char>::empty());
    lemma_fitting(s, max, 0);
    let n = fitting(s, max, 0);
    if n == s.len() {
        assert(s.take(n) =~= s);
    } else {
        lemma_byte_len_grows(s, n + 1);
    }
}

} // verus!
