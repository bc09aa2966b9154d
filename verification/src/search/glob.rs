//! The result of a file name search, and how it is shown.

use vstd::prelude::*;

use crate::order::{by_key, ints, sort_by_keys, sorted};
use crate::search::rank::{path_key, path_sort_key};
use crate::search::siblings::{at_most, deduplicated, name_order, sort_and_dedup};
use crate::text::{decimal, join, join_strings, push_decimal, push_str, string_views};
use crate::types::{estimate_tokens, token_estimate};

verus! {

/// One file that a pattern matched.
pub struct GlobFile {
    pub path: String,
    /// A short description of the file, such as its estimated token count.
    pub preview: Option<String>,
}

/// The result of a file name search.
pub struct GlobResult {
    pub pattern: String,
    /// The files that are shown.
    pub files: Vec<GlobFile>,
    /// The number of files that matched.
    pub total_found: usize,
    /// The extensions that occur in the scope; shown when nothing matched.
    pub available_extensions: Vec<String>,
}

/// The most files that the result of a file name search shows.
pub const MAX_GLOB_FILES: usize = 100;

/// The preview of a file of `byte_len` bytes: its estimated tokens.
pub open spec fn preview_text(byte_len: u64) -> Seq<char> {
    "~"@ + decimal(token_estimate(byte_len) as nat) + " tokens"@
}

/// The preview of a file of `byte_len` bytes: its estimated tokens.
pub fn token_preview(byte_len: u64) -> (text: String)
    ensures
        text@ == preview_text(byte_len),
{
    let mut out = String::new();
    push_str(&mut out, "~");
    push_decimal(&mut out, estimate_tokens(byte_len));
    push_str(&mut out, " tokens");
    assert(out@ =~= preview_text(byte_len));
    out
}

/// The order of files in a result: by path, component by component.
pub open spec fn glob_order() -> spec_fn(GlobFile, GlobFile) -> bool {
    by_key(|f: GlobFile| path_key(f.path@))
}

/// Whether `result` is the result of a search for `pattern` that found the
/// files `found` in a scope where the extensions `extensions` occur: the
/// files in the order of their paths, a hundred at most; the number found;
/// the extensions in order, each once.
pub open spec fn is_glob_result(
    result: GlobResult,
    pattern: Seq<char>,
    found: Seq<GlobFile>,
    extensions: Seq<String>,
) -> bool {
    &&& result.pattern@ == pattern
    &&& result.files@ == at_most(sorted(found, glob_order()), MAX_GLOB_FILES as int)
    &&& result.total_found == found.len()
    &&& string_views(result.available_extensions@) == deduplicated(
        string_views(sorted(extensions, name_order())),
    )
}

/// Makes the result of a file name search from the files that matched and
/// the extensions that occur in the scope.
pub fn glob_result(pattern: &str, found: Vec<GlobFile>, extensions: Vec<String>) -> (result:
    GlobResult)
    ensures
        is_glob_result(result, pattern@, found@, extensions@),
{
    let total_found = found.len();
    let mut files = found;
    let mut keys: Vec<Vec<u32>> = Vec::new();
    let mut i: usize = 0;
    while i < files.len()
        invariant
            i <= files@.len(),
            files@ == found@,
            keys@.len() == i,
            forall|j: int| 0 <= j < i ==> ints(#[trigger] keys@[j]@) == path_key(files@[j].path@),
        decreases files@.len() - i,
    {
        keys.push(path_sort_key(files[i].path.as_str()));
        i += 1;
    }
    sort_by_keys(&mut files, keys, Ghost(|f: GlobFile| path_key(f.path@)));
    if files.len() > MAX_GLOB_FILES {
        files.truncate(MAX_GLOB_FILES);
    }
    GlobResult {
        pattern: pattern.to_owned(),
        files,
        total_found,
        available_extensions: sort_and_dedup(extensions),
    }
}

/// One file of the list: its path and, in brackets, its preview.
pub open spec fn glob_file_text(f: GlobFile) -> Seq<char> {
    "\n  "@ + f.path@ + (match f.preview {
        Some(p) => "  ("@ + p@ + ")"@,
        None => Seq::empty(),
    })
}

/// The first `n` files of the list.
pub open spec fn glob_files_text(files: Seq<GlobFile>, n: int) -> Seq<char>
    decreases n,
{
    if n <= 0 {
        Seq::empty()
    } else {
        glob_files_text(files, n - 1) + glob_file_text(files[n - 1])
    }
}

/// The rendering of a file name search: a header with the number of files
/// shown, the files, a note on files that matched but are not shown, and,
/// where nothing is shown, the extensions that do occur.
pub open spec fn glob_result_text(result: GlobResult, scope: Seq<char>) -> Seq<char> {
    "# Glob: \""@ + result.pattern@ + "\" in "@ + scope + " — "@ + decimal(result.files@.len())
        + " files"@ + glob_files_text(result.files@, result.files@.len() as int) + (
    if result.total_found > result.files@.len() {
        "\n\n... and "@ + decimal((result.total_found - result.files@.len()) as nat)
            + " more files. Narrow with scope."@
    } else {
        Seq::empty()
    }) + (if result.files@.len() == 0 && result.available_extensions@.len() > 0 {
        "\n\nNo matches. Available extensions in scope: "@ + join(
            string_views(result.available_extensions@),
            ", "@,
        )
    } else {
        Seq::empty()
    })
}

/// Formats the result of a file name search.
pub fn format_glob_result(result: &GlobResult, scope: &str) -> (text: String)
    ensures
        text@ == glob_result_text(*result, scope@),
{
    let mut out = String::new();
    push_str(&mut out, "# Glob: \"");
    push_str(&mut out, result.pattern.as_str());
    push_str(&mut out, "\" in ");
    push_str(&mut out, scope);
    push_str(&mut out, " — ");
    push_decimal(&mut out, result.files.len() as u64);
    push_str(&mut out, " files");
    let ghost head = out@;
    let mut i: usize = 0;
    assert(head + glob_files_text(result.files@, 0) =~= head);
    while i < result.files.len()
        invariant
            i <= result.files.len(),
            out@ == head + glob_files_text(result.files@, i as int),
        decreases result.files.len() - i,
    {
        let file = &result.files[i];
        let ghost before = out@;
        push_str(&mut out, "\n  ");
        push_str(&mut out, file.path.as_str());
        match &file.preview {
            Some(p) => {
                push_str(&mut out, "  (");
                push_str(&mut out, p.as_str());
                push_str(&mut out, ")");
            },
            None => {},
        }
        assert(out@ =~= before + glob_file_text(*file));
        i += 1;
    }
    let ghost listed = out@;
    if result.total_found > result.files.len() {
        let omitted = result.total_found - result.files.len();
        push_str(&mut out, "\n\n... and ");
        push_decimal(&mut out, omitted as u64);
        push_str(&mut out, " more files. Narrow with scope.");
    }
    let ghost noted = out@;
    if result.files.len() == 0 && result.available_extensions.len() > 0 {
        push_str(&mut out, "\n\nNo matches. Available extensions in scope: ");
        let list = join_strings(&result.available_extensions, ", ");
        push_str(&mut out, list.as_str());
    }
    assert(out@ =~= glob_result_text(*result, scope@));
    out
}

} // verus!
