//! Reading a file: the decision what to show of it.
//!
//! What is on disk comes in as a value; the decision and the rendering
//! happen here.

use vstd::prelude::*;
use vstd::string::StringSliceAdditionalSpecFns;
use vstd::utf8::encode_utf8;

use crate::bytes::{line_offsets, lossy_text, text_lossy};
use crate::cache::{Cached, OutlineCache};
use crate::edit::{hashline_content, hashlined};
use crate::error::TilthError;
use crate::format::{binary_header, binary_header_text, file_header, file_header_text};
use crate::paths::{extension, file_name, path_file_name};
use crate::read::detect::{detect_file_type, file_type_of, mime_from_ext, mime_of_extension};
use crate::read::section::{
    directory_text, is_section_result, line_count_of, list_directory, read_section,
    section_outcome, DirEntry,
};
use crate::read::suggest::{suggest_similar, suggestion_for};
use crate::text::{push_str, string_of};
use crate::types::{estimate_tokens, token_estimate, FileType, ViewMode};

verus! {

/// Up to this many estimated tokens a file is shown whole.
pub const TOKEN_THRESHOLD: u64 = 1_500;

/// Above this size the outline of a file is made from its beginning only.
pub const FILE_SIZE_CAP: u64 = 500_000;

/// The number of leading bytes that decide whether a file is binary.
pub const BINARY_SAMPLE: usize = 8_192;

/// The number of leading bytes in which a generated file says so.
pub const GENERATED_SAMPLE: usize = 2_048;

// ---------------------------------------------------------------------------
// Binary and generated files
// ---------------------------------------------------------------------------

/// Whether a byte is no printable text: a control byte other than tab, line
/// feed and carriage return.
pub open spec fn non_printable(b: u8) -> bool {
    (b < 0x20 && b != 0x09 && b != 0x0A && b != 0x0D) || b == 0x7F
}

/// The number of non-printable bytes among the first `n` of `s`.
pub open spec fn non_printable_count(s: Seq<u8>, n: int) -> nat
    decreases n,
{
    if n <= 0 {
        0
    } else {
        non_printable_count(s, n - 1) + if non_printable(s[n - 1]) {
            1nat
        } else {
            0nat
        }
    }
}

/// The first `limit` items of `s`, or all of them.
pub open spec fn sample<T>(s: Seq<T>, limit: int) -> Seq<T> {
    if s.len() > limit {
        s.take(limit)
    } else {
        s
    }
}

/// Whether content is binary: its first 8 KB hold a NUL byte, or more than
/// thirty percent of them are non-printable.
pub open spec fn binary_content(buf: Seq<u8>) -> bool {
    let s = sample(buf, BINARY_SAMPLE as int);
    s.contains(0u8) || non_printable_count(s, s.len() as int) * 100 > s.len() * 30
}

/// Whether the content of a file is binary.
pub fn is_binary(buf: &[u8]) -> (b: bool)
    ensures
        b == binary_content(buf@),
{
    let n: usize = if buf.len() > BINARY_SAMPLE {
        BINARY_SAMPLE
    } else {
        buf.len()
    };
    let ghost s = sample(buf@, BINARY_SAMPLE as int);
    let mut count: usize = 0;
    let mut i: usize = 0;
    while i < n
        invariant
            i <= n,
            n == s.len(),
            n <= BINARY_SAMPLE,
            s == sample(buf@, BINARY_SAMPLE as int),
            count <= i,
            count == non_printable_count(s, i as int),
            forall|j: int| 0 <= j < i ==> s[j] != 0u8,
        decreases n - i,
    {
        let b = buf[i];
        assert(b == s[i as int]);
        if b == 0 {
            return true;
        }
        if (b < 0x20 && b != 0x09 && b != 0x0A && b != 0x0D) || b == 0x7F {
            count += 1;
        }
        i += 1;
    }
    count * 100 > n * 30
}

/// Whether `pat` occurs in `s` at offset `at`.
pub open spec fn bytes_at(s: Seq<u8>, pat: Seq<u8>, at: int) -> bool {
    0 <= at && at + pat.len() <= s.len() && s.subrange(at, at + pat.len()) == pat
}

/// Whether `pat` occurs anywhere in `s`.
pub open spec fn has_bytes(s: Seq<u8>, pat: Seq<u8>) -> bool {
    exists|at: int| bytes_at(s, pat, at)
}

fn bytes_match(buf: &[u8], n: usize, pat: &[u8], at: usize) -> (r: bool)
    requires
        n <= buf@.len(),
    ensures
        r == bytes_at(buf@.take(n as int), pat@, at as int),
{
    if pat.len() > n || at > n - pat.len() {
        return false;
    }
    let ghost s = buf@.take(n as int);
    let mut j: usize = 0;
    while j < pat.len()
        invariant
            j <= pat@.len(),
            at + pat@.len() <= n <= buf@.len(),
            s == buf@.take(n as int),
            s.subrange(at as int, at + j) == pat@.take(j as int),
        decreases pat@.len() - j,
    {
        if buf[at + j] != pat[j] {
            assert(s.subrange(at as int, at + pat@.len())[j as int] == s[at + j]);
            return false;
        }
        j += 1;
        assert(s.subrange(at as int, at + j) =~= s.subrange(at as int, at + j - 1).push(
            s[at + j - 1],
        ));
        assert(pat@.take(j as int) =~= pat@.take(j - 1).push(pat@[j - 1]));
    }
    assert(pat@.take(pat@.len() as int) =~= pat@);
    true
}

/// Whether `pat` occurs in the first `n` bytes of `buf`.
fn sample_has(buf: &[u8], n: usize, pat: &str) -> (r: bool)
    requires
        n <= buf@.len(),
    ensures
        r == has_bytes(buf@.take(n as int), pat.spec_bytes()),
{
    let p = pat.as_bytes();
    let mut i: usize = 0;
    while i < n
        invariant
            i <= n <= buf@.len(),
            p@ == pat.spec_bytes(),
            forall|k: int| 0 <= k < i ==> !bytes_at(buf@.take(n as int), p@, k),
        decreases n - i,
    {
        if bytes_match(buf, n, p, i) {
            return true;
        }
        i += 1;
    }
    if bytes_match(buf, n, p, n) {
        return true;
    }
    false
}

/// Whether content says that it is generated: its first 2 KB hold
/// `@generated` or `DO NOT EDIT`.
pub open spec fn generated_content(buf: Seq<u8>) -> bool {
    let s = sample(buf, GENERATED_SAMPLE as int);
    has_bytes(s, "@generated".spec_bytes()) || has_bytes(s, "DO NOT EDIT".spec_bytes())
}

/// Whether the content of a file says that it is generated.
pub fn is_generated_by_content(buf: &[u8]) -> (b: bool)
    ensures
        b == generated_content(buf@),
{
    let n: usize = if buf.len() > GENERATED_SAMPLE {
        GENERATED_SAMPLE
    } else {
        buf.len()
    };
    assert(buf@.take(n as int) =~= sample(buf@, GENERATED_SAMPLE as int));
    sample_has(buf, n, "@generated") || sample_has(buf, n, "DO NOT EDIT")
}

/// Whether a file name marks a file as generated: a lock file of a package
/// manager, or minified or machine-written source.
pub open spec fn generated_name(name: Seq<char>) -> bool {
    name == "package-lock.json"@ || name == "yarn.lock"@ || name == "pnpm-lock.yaml"@ || name
        == "Cargo.lock"@ || name == "go.sum"@ || name == "composer.lock"@ || name
        == "Gemfile.lock"@ || name == "poetry.lock"@ || ".min.js"@.is_suffix_of(name)
        || ".min.css"@.is_suffix_of(name) || ".pb.go"@.is_suffix_of(name) || "_pb2.py"@.is_suffix_of(
        name,
    ) || ".generated.ts"@.is_suffix_of(name) || ".g.dart"@.is_suffix_of(name)
}

fn ends_with(text: &Vec<char>, pat: &str) -> (b: bool)
    ensures
        b == pat@.is_suffix_of(text@),
{
    let p = crate::text::to_chars(pat);
    if p.len() > text.len() {
        return false;
    }
    let at = text.len() - p.len();
    let b = crate::text::matches_at(text, &p, at);
    proof {
        assert(text@.subrange(at as int, at + p@.len()) =~= text@.subrange(
            (text@.len() - p@.len()) as int,
            text@.len() as int,
        ));
    }
    b
}

/// Whether the name of a file marks it as generated.
pub fn is_generated_by_name(name: &str) -> (b: bool)
    ensures
        b == generated_name(name@),
{
    let n = crate::text::to_chars(name);
    crate::search::strip::is_word(&n, "package-lock.json") || crate::search::strip::is_word(
        &n,
        "yarn.lock",
    ) || crate::search::strip::is_word(&n, "pnpm-lock.yaml") || crate::search::strip::is_word(
        &n,
        "Cargo.lock",
    ) || crate::search::strip::is_word(&n, "go.sum") || crate::search::strip::is_word(
        &n,
        "composer.lock",
    ) || crate::search::strip::is_word(&n, "Gemfile.lock") || crate::search::strip::is_word(
        &n,
        "poetry.lock",
    ) || ends_with(&n, ".min.js") || ends_with(&n, ".min.css") || ends_with(&n, ".pb.go")
        || ends_with(&n, "_pb2.py") || ends_with(&n, ".generated.ts") || ends_with(&n, ".g.dart")
}

/// Whether a file is generated: by the name that its path ends in, or by
/// what its content says.
pub open spec fn generated_file(path: Seq<char>, buf: Seq<u8>) -> bool {
    (match file_name(path) {
        Some(name) => generated_name(name),
        None => false,
    }) || generated_content(buf)
}

// ---------------------------------------------------------------------------
// Reading
// ---------------------------------------------------------------------------

/// What is on disk at a path.
pub enum ReadInput {
    /// Nothing; `siblings` are the names in the directory that would hold it.
    Missing { siblings: Vec<String> },
    /// Something that may not be read.
    Denied,
    /// Something that could not be read; `message` is what the system said.
    Failed { message: String },
    /// A directory with these entries.
    Directory { entries: Vec<DirEntry> },
    /// A file with this content.
    File { bytes: Vec<u8>, mtime: u64 },
}

/// How a file with content is shown.
#[derive(Clone, Copy, Debug, PartialEq, Eq, Structural)]
pub enum Showing {
    /// Only a header: the file is empty.
    Empty,
    /// Only a header: the file is binary.
    Binary,
    /// Only a header: the file is generated.
    Generated,
    /// Header and content.
    Full,
    /// Header and outline.
    Outline,
}

/// How a file with the given content is shown: the first that applies of
/// empty, binary, generated, full (asked for, or small), outline.
pub open spec fn showing(path: Seq<char>, buf: Seq<u8>, full: bool) -> Showing {
    if buf.len() == 0 {
        Showing::Empty
    } else if binary_content(buf) {
        Showing::Binary
    } else if generated_file(path, buf) {
        Showing::Generated
    } else if full || token_estimate(buf.len() as u64) <= TOKEN_THRESHOLD {
        Showing::Full
    } else {
        Showing::Outline
    }
}

/// The mode of an outline view: keys for structured data, outline otherwise.
pub open spec fn outline_mode(path: Seq<char>) -> ViewMode {
    if file_type_of(path) == FileType::StructuredData {
        ViewMode::Keys
    } else {
        ViewMode::Outline
    }
}

/// The view of a file that is not shown by outline. In edit mode the content
/// of a file that is shown in full comes behind anchors.
pub open spec fn plain_view(path: Seq<char>, buf: Seq<u8>, how: Showing, edit_mode: bool) -> Seq<char> {
    let lines = line_count_of(buf) as u32;
    match how {
        Showing::Empty => file_header_text(path, 0, 0, ViewMode::Empty),
        Showing::Binary => binary_header_text(
            path,
            buf.len() as u64,
            mime_of_extension(extension(path)),
        ),
        Showing::Generated => file_header_text(path, buf.len() as u64, lines, ViewMode::Generated),
        _ => file_header_text(path, buf.len() as u64, lines, ViewMode::Full) + "\n\n"@ + (
        if edit_mode {
            hashlined(lossy_text(buf))
        } else {
            lossy_text(buf)
        }),
    }
}

/// The view of a file by outline.
pub open spec fn outline_view(path: Seq<char>, buf: Seq<u8>, outline: Seq<char>) -> Seq<char> {
    file_header_text(path, buf.len() as u64, line_count_of(buf) as u32, outline_mode(path))
        + "\n\n"@ + outline
}

/// Whether `result` and the cache after the call are right for a file with
/// content: a section if one is asked for; else the view by `showing`, where
/// the outline comes from the cache if the cache holds it for this mtime, and
/// from `outline` otherwise, which the cache then remembers.
pub open spec fn is_file_result<F: FnOnce(bool) -> String>(
    result: Result<String, TilthError>,
    path: Seq<char>,
    buf: Seq<u8>,
    mtime: u64,
    section: Option<Seq<char>>,
    full: bool,
    edit_mode: bool,
    before: OutlineCache,
    after: OutlineCache,
    outline: F,
) -> bool {
    match section {
        Some(range) => is_section_result(
            result,
            section_outcome(path, buf, range, edit_mode),
            range,
        )
            && forall|p: Seq<char>| after.cached(p) == before.cached(p),
        None => {
            let how = showing(path, buf, full);
            if how != Showing::Outline {
                &&& result matches Ok(t) && t@ == plain_view(path, buf, how, edit_mode)
                &&& forall|p: Seq<char>| after.cached(p) == before.cached(p)
            } else if before.hits(path, mtime) {
                &&& result matches Ok(t) && t@ == outline_view(
                    path,
                    buf,
                    before.cached(path).unwrap().outline,
                )
                &&& forall|p: Seq<char>| after.cached(p) == before.cached(p)
            } else {
                exists|o: String|
                    {
                        &&& outline.ensures((buf.len() as u64 > FILE_SIZE_CAP,), o)
                        &&& result matches Ok(t) && t@ == outline_view(path, buf, o@)
                        &&& after.cached(path) == Some(Cached { mtime, outline: o@ })
                        &&& forall|p: Seq<char>| p != path ==> after.cached(p) == before.cached(p)
                    }
            }
        },
    }
}

/// Whether `result` is right for a missing path: an error that names the
/// path, with the suggestion that the names beside it give for its file
/// name.
pub open spec fn is_missing_result(result: Result<String, TilthError>, path: Seq<char>, siblings: Seq<String>) -> bool {
    result matches Err(TilthError::NotFound { path: p, suggestion }) && p@ == path && match file_name(
        path,
    ) {
        Some(name) => suggestion_for(encode_utf8(name), siblings, suggestion),
        None => suggestion.is_none(),
    }
}

fn count_lines(buf: &[u8]) -> (n: u32)
    ensures
        n == line_count_of(buf@) as u32,
{
    let offsets = line_offsets(buf);
    #[verifier::truncate]
    (offsets.len() as u32)
}

/// Whether reading `input` computes an outline: it is a file that is shown by
/// outline, no section is asked for, and the cache does not hold its outline
/// for its mtime.
pub open spec fn computes_outline(
    input: ReadInput,
    path: Seq<char>,
    section: Option<Seq<char>>,
    full: bool,
    cache: OutlineCache,
) -> bool {
    match input {
        ReadInput::File { bytes, mtime } => section.is_none() && showing(path, bytes@, full)
            == Showing::Outline && !cache.hits(path, mtime),
        _ => false,
    }
}

/// Whether `input` is a file above the size cap.
pub open spec fn is_capped(input: ReadInput) -> bool {
    match input {
        ReadInput::File { bytes, mtime } => bytes@.len() as u64 > FILE_SIZE_CAP,
        _ => false,
    }
}

/// Reads a path: decides what to show of what is there, and renders it.
///
/// A missing path is an error that may carry a suggestion; so are paths that
/// may not or could not be read. A directory is listed. Of a file, a section
/// is shown if one is asked for; else a header alone if it is empty, binary
/// or generated; else header and content if `full` is set or the file is
/// small; else header and outline. In edit mode, content and sections come
/// behind anchors. The outline comes from the cache if the
/// cache holds it for the file's mtime; otherwise `outline` makes it, told
/// whether the file is above the size cap, and the cache remembers it.
/// `outline` need be callable only where it is called.
pub fn read_file<F: FnOnce(bool) -> String>(
    path: &str,
    input: ReadInput,
    section: Option<&str>,
    full: bool,
    edit_mode: bool,
    cache: &mut OutlineCache,
    outline: F,
) -> (result: Result<String, TilthError>)
    requires
        computes_outline(input, path@, crate::search::rank::opt_view(section), full, *old(cache))
            ==> outline.requires((is_capped(input),)),
    ensures
        match input {
            ReadInput::Missing { siblings } => is_missing_result(result, path@, siblings@)
                && forall|p: Seq<char>| final(cache).cached(p) == old(cache).cached(p),
            ReadInput::Denied => (result matches Err(TilthError::PermissionDenied { path: p })
                && p@ == path@) && forall|p: Seq<char>|
                final(cache).cached(p) == old(cache).cached(p),
            ReadInput::Failed { message } => (result matches Err(
                TilthError::IoError { path: p, message: m },
            ) && p@ == path@ && m@ == message@) && forall|p: Seq<char>|
                final(cache).cached(p) == old(cache).cached(p),
            ReadInput::Directory { entries } => (result matches Ok(t) && t@ == directory_text(
                path@,
                entries@,
            )) && forall|p: Seq<char>| final(cache).cached(p) == old(cache).cached(p),
            ReadInput::File { bytes, mtime } => is_file_result(
                result,
                path@,
                bytes@,
                mtime,
                crate::search::rank::opt_view(section),
                full,
                edit_mode,
                *old(cache),
                *final(cache),
                outline,
            ),
        },
{
    match input {
        ReadInput::Missing { siblings } => {
            let suggestion = match path_file_name(path) {
                Some(name) => {
                    let wanted = string_of(&name);
                    let wanted_str = wanted.as_str();
                    let s = suggest_similar(wanted_str, &siblings);
                    assert(wanted_str.spec_bytes() == encode_utf8(name@));
                    s
                },
                None => None,
            };
            Err(TilthError::NotFound { path: path.to_owned(), suggestion })
        },
        ReadInput::Denied => Err(TilthError::PermissionDenied { path: path.to_owned() }),
        ReadInput::Failed { message } => Err(TilthError::IoError { path: path.to_owned(), message }),
        ReadInput::Directory { entries } => Ok(list_directory(path, entries)),
        ReadInput::File { bytes, mtime } => {
            let buf = bytes.as_slice();
            match section {
                Some(range) => {
                    return read_section(path, buf, range, edit_mode);
                },
                None => {},
            }
            let byte_len = buf.len() as u64;
            if byte_len == 0 {
                return Ok(file_header(path, 0, 0, ViewMode::Empty));
            }
            if is_binary(buf) {
                let mime = mime_from_ext(path);
                return Ok(binary_header(path, byte_len, mime));
            }
            let line_count = count_lines(buf);
            let named = match path_file_name(path) {
                Some(name) => is_generated_by_name(string_of(&name).as_str()),
                None => false,
            };
            if named || is_generated_by_content(buf) {
                return Ok(file_header(path, byte_len, line_count, ViewMode::Generated));
            }
            let tokens = estimate_tokens(byte_len);
            if full || tokens <= TOKEN_THRESHOLD {
                let mut out = file_header(path, byte_len, line_count, ViewMode::Full);
                let content = text_lossy(buf);
                push_str(&mut out, "\n\n");
                if edit_mode {
                    let view = hashline_content(content.as_str());
                    push_str(&mut out, view.as_str());
                } else {
                    push_str(&mut out, content.as_str());
                }
                assert(showing(path@, bytes@, full) == Showing::Full);
                return Ok(out);
            }
            assert(showing(path@, bytes@, full) == Showing::Outline);
            let mode = match detect_file_type(path) {
                FileType::StructuredData => ViewMode::Keys,
                _ => ViewMode::Outline,
            };
            let capped = byte_len > FILE_SIZE_CAP;
            let text = match cache.lookup(path, mtime) {
                Some(o) => o,
                None => {
                    let o = outline(capped);
                    cache.store(path, mtime, o.clone());
                    o
                },
            };
            let mut out = file_header(path, byte_len, line_count, mode);
            push_str(&mut out, "\n\n");
            push_str(&mut out, text.as_str());
            assert(out@ == outline_view(path@, bytes@, text@));
            Ok(out)
        },
    }
}

} // verus!
