//! Header lines and line numbering.

use vstd::prelude::*;

use crate::text::{
    decimal, decimal_chars, lines, padded_decimal, push_all, push_decimal, push_padded_decimal,
    push_str, split_lines, texts, to_chars,
};
use crate::types::{estimate_tokens, token_estimate, ViewMode};

verus! {

/// The token count as a header shows it: `~N tokens` below a thousand, else
/// `~M.Nk tokens` with one decimal, rounded down.
pub open spec fn token_text(tokens: nat) -> Seq<char> {
    if tokens >= 1000 {
        "~"@ + decimal(tokens / 1000) + "."@ + decimal((tokens % 1000) / 100) + "k tokens"@
    } else {
        "~"@ + decimal(tokens) + " tokens"@
    }
}

/// The header of a file view: `# path (N lines, ~X.Xk tokens) [mode]`.
pub open spec fn file_header_text(path: Seq<char>, byte_len: u64, line_count: u32, mode: ViewMode) -> Seq<
    char,
> {
    "# "@ + path + " ("@ + decimal(line_count as nat) + " lines, "@ + token_text(
        token_estimate(byte_len) as nat,
    ) + ") ["@ + mode.label_text() + "]"@
}

/// Builds the header of a file view: `# path (N lines, ~X.Xk tokens) [mode]`.
pub fn file_header(path: &str, byte_len: u64, line_count: u32, mode: ViewMode) -> (header: String)
    ensures
        header@ == file_header_text(path@, byte_len, line_count, mode),
{
    let tokens = estimate_tokens(byte_len);
    let mut out = String::new();
    push_str(&mut out, "# ");
    push_str(&mut out, path);
    push_str(&mut out, " (");
    push_decimal(&mut out, line_count as u64);
    push_str(&mut out, " lines, ");
    let ghost before = out@;
    if tokens >= 1000 {
        push_str(&mut out, "~");
        push_decimal(&mut out, tokens / 1000);
        push_str(&mut out, ".");
        push_decimal(&mut out, (tokens % 1000) / 100);
        push_str(&mut out, "k tokens");
    } else {
        push_str(&mut out, "~");
        push_decimal(&mut out, tokens);
        push_str(&mut out, " tokens");
    }
    assert(out@ =~= before + token_text(tokens as nat));
    push_str(&mut out, ") [");
    push_str(&mut out, mode.label());
    push_str(&mut out, "]");
    assert(out@ =~= file_header_text(path@, byte_len, line_count, mode));
    out
}

/// A byte count for human eyes: bytes below 1 KiB, whole KiB below 1 MiB, else
/// MiB with one decimal, rounded down.
pub open spec fn size_text(bytes: nat) -> Seq<char> {
    if bytes < 1024 {
        decimal(bytes) + "B"@
    } else if bytes < 1024 * 1024 {
        decimal(bytes / 1024) + "KB"@
    } else {
        decimal(bytes / (1024 * 1024)) + "."@ + decimal((bytes % (1024 * 1024)) * 10 / (1024 * 1024))
            + "MB"@
    }
}

/// Renders a byte count for human eyes.
pub fn format_size(bytes: u64) -> (text: String)
    ensures
        text@ == size_text(bytes as nat),
{
    let mut out = String::new();
    if bytes < 1024 {
        push_decimal(&mut out, bytes);
        push_str(&mut out, "B");
    } else if bytes < 1024 * 1024 {
        push_decimal(&mut out, bytes / 1024);
        push_str(&mut out, "KB");
    } else {
        push_decimal(&mut out, bytes / (1024 * 1024));
        push_str(&mut out, ".");
        push_decimal(&mut out, (bytes % (1024 * 1024)) * 10 / (1024 * 1024));
        push_str(&mut out, "MB");
    }
    assert(out@ =~= size_text(bytes as nat));
    out
}

/// The header of a binary file: `# path (binary, size, mime) [skipped]`.
pub open spec fn binary_header_text(path: Seq<char>, byte_len: u64, mime: Seq<char>) -> Seq<char> {
    "# "@ + path + " (binary, "@ + size_text(byte_len as nat) + ", "@ + mime + ") [skipped]"@
}

/// Builds the header of a binary file: `# path (binary, size, mime) [skipped]`.
pub fn binary_header(path: &str, byte_len: u64, mime: &str) -> (header: String)
    ensures
        header@ == binary_header_text(path@, byte_len, mime@),
{
    let size = format_size(byte_len);
    let mut out = String::new();
    push_str(&mut out, "# ");
    push_str(&mut out, path);
    push_str(&mut out, " (binary, ");
    push_str(&mut out, size.as_str());
    push_str(&mut out, ", ");
    push_str(&mut out, mime);
    push_str(&mut out, ") [skipped]");
    assert(out@ =~= binary_header_text(path@, byte_len, mime@));
    out
}

/// The counts of a search header: the total, and in brackets the
/// definitions and the usages.
pub open spec fn match_counts_text(total: nat, defs: nat, usages: nat) -> Seq<char> {
    decimal(total) + " matches ("@ + decimal(defs) + " definitions, "@ + decimal(usages)
        + " usages)"@
}

/// The header of a search result.
pub open spec fn search_header_text(
    query: Seq<char>,
    scope: Seq<char>,
    total: nat,
    defs: nat,
    usages: nat,
) -> Seq<char> {
    "# Search: \""@ + query + "\" in "@ + scope + " — "@ + match_counts_text(total, defs, usages)
}

/// Builds the header of a search result.
pub fn search_header(query: &str, scope: &str, total: usize, defs: usize, usages: usize) -> (header:
    String)
    ensures
        header@ == search_header_text(query@, scope@, total as nat, defs as nat, usages as nat),
{
    let mut out = String::new();
    push_str(&mut out, "# Search: \"");
    push_str(&mut out, query);
    push_str(&mut out, "\" in ");
    push_str(&mut out, scope);
    push_str(&mut out, " — ");
    let ghost before = out@;
    push_decimal(&mut out, total as u64);
    push_str(&mut out, " matches (");
    push_decimal(&mut out, defs as u64);
    push_str(&mut out, " definitions, ");
    push_decimal(&mut out, usages as u64);
    push_str(&mut out, " usages)");
    assert(out@ =~= before + match_counts_text(total as nat, defs as nat, usages as nat));
    assert(out@ =~= search_header_text(query@, scope@, total as nat, defs as nat, usages as nat));
    out
}

/// The first `upto` lines of `ls`, each behind its number: the number
/// right-aligned to `width`, two spaces, the line, a line feed.
pub open spec fn numbered(ls: Seq<Seq<char>>, start: nat, width: nat, upto: int) -> Seq<char>
    decreases upto,
{
    if upto <= 0 {
        Seq::empty()
    } else {
        numbered(ls, start, width, upto - 1) + padded_decimal((start + upto - 1) as nat, width)
            + "  "@ + ls[upto - 1] + "\n"@
    }
}

/// The width of the number column: the digits of the number that follows the
/// last line's.
pub open spec fn number_width(start: nat, count: nat) -> nat {
    if start + count < 1 {
        1
    } else {
        decimal(start + count).len()
    }
}

/// `content` with each line behind its line number, counted from `start`.
pub open spec fn number_lines_text(content: Seq<char>, start: u32) -> Seq<char> {
    let ls = lines(content);
    numbered(ls, start as nat, number_width(start as nat, ls.len()), ls.len() as int)
}

/// Prefixes each line of `content` with its line number, right-aligned,
/// counting from `start`.
pub fn number_lines(content: &str, start: u32) -> (numbered_text: String)
    ensures
        numbered_text@ == number_lines_text(content@, start),
{
    let chars = to_chars(content);
    let ls = split_lines(&chars);
    let last: u128 = start as u128 + ls.len() as u128;
    let width: usize = if last < 1 {
        1
    } else {
        decimal_chars(last).len()
    };
    let mut out = String::new();
    let mut i: usize = 0;
    while i < ls.len()
        invariant
            i <= ls.len(),
            texts(ls@) == lines(content@),
            width == number_width(start as nat, ls@.len()),
            out@ == numbered(texts(ls@), start as nat, width as nat, i as int),
        decreases ls.len() - i,
    {
        let ghost before = out@;
        push_padded_decimal(&mut out, start as u128 + i as u128, width);
        push_str(&mut out, "  ");
        push_all(&mut out, &ls[i]);
        push_str(&mut out, "\n");
        i += 1;
        assert(out@ =~= before + padded_decimal((start + i - 1) as nat, width as nat) + "  "@
            + texts(ls@)[i - 1] + "\n"@);
    }
    out
}

} // verus!
