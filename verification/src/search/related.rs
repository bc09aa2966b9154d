//! Related files: of the files that stand beside a file, those that it
//! imports and mentions.
//!
//! A file counts as imported if a line that looks like an import names its
//! stem, and as mentioned if another line, which is no comment, names it too.

use vstd::prelude::*;

use crate::paths::{file_stem, is_same_path, path_file_stem, same_path};
use crate::search::expand::{import_line, is_import_line};
use crate::search::symbol::{line_names, line_uses, names, uses};
use crate::text::{lines, split_lines, string_views, texts, to_chars, trim, trim_chars};

verus! {

/// Whether one of the first `n` lines looks like an import and names `word`.
pub open spec fn imports_upto(ls: Seq<Seq<char>>, word: Seq<char>, n: int) -> bool
    decreases n,
{
    n > 0 && (imports_upto(ls, word, n - 1) || (import_line(trim(ls[n - 1])) && names(
        ls[n - 1],
        word,
    )))
}

/// Whether one of the first `n` lines is no import and uses `word`.
pub open spec fn mentions_upto(ls: Seq<Seq<char>>, word: Seq<char>, n: int) -> bool
    decreases n,
{
    n > 0 && (mentions_upto(ls, word, n - 1) || (!import_line(trim(ls[n - 1])) && uses(
        ls[n - 1],
        word,
    )))
}

/// Whether the file at `candidate` is related to the file at `path` with the
/// lines `ls`: it is another file, and its stem is imported and mentioned.
pub open spec fn is_related(ls: Seq<Seq<char>>, path: Seq<char>, candidate: Seq<char>) -> bool {
    !is_same_path(candidate, path) && match file_stem(candidate) {
        Some(stem) => imports_upto(ls, stem, ls.len() as int) && mentions_upto(
            ls,
            stem,
            ls.len() as int,
        ),
        None => false,
    }
}

/// Of the first `n` candidates, those that are related, in order.
pub open spec fn related_upto(
    ls: Seq<Seq<char>>,
    path: Seq<char>,
    candidates: Seq<Seq<char>>,
    n: int,
) -> Seq<Seq<char>>
    decreases n,
{
    if n <= 0 {
        Seq::empty()
    } else if is_related(ls, path, candidates[n - 1]) {
        related_upto(ls, path, candidates, n - 1).push(candidates[n - 1])
    } else {
        related_upto(ls, path, candidates, n - 1)
    }
}

/// Whether the lines import and mention `word`.
fn imports_and_mentions(ls: &Vec<Vec<char>>, word: &Vec<char>) -> (b: bool)
    ensures
        b == (imports_upto(texts(ls@), word@, ls@.len() as int) && mentions_upto(
            texts(ls@),
            word@,
            ls@.len() as int,
        )),
{
    let ghost all = texts(ls@);
    let mut imported = false;
    let mut mentioned = false;
    let mut i: usize = 0;
    while i < ls.len()
        invariant
            i <= ls@.len(),
            all == texts(ls@),
            imported == imports_upto(all, word@, i as int),
            mentioned == mentions_upto(all, word@, i as int),
        decreases ls@.len() - i,
    {
        if is_import_line(&trim_chars(&ls[i])) {
            if !imported && line_names(&ls[i], word) {
                imported = true;
            }
        } else if !mentioned && line_uses(&ls[i], word) {
            mentioned = true;
        }
        i += 1;
    }
    imported && mentioned
}

/// Picks, of the files `candidates` that stand beside the file at `path`,
/// those that the content of that file imports and mentions.
pub fn related_files(path: &str, content: &str, candidates: &Vec<String>) -> (related: Vec<String>)
    ensures
        string_views(related@) == related_upto(
            lines(content@),
            path@,
            string_views(candidates@),
            candidates@.len() as int,
        ),
{
    let chars = to_chars(content);
    let ls = split_lines(&chars);
    let ghost all = lines(content@);
    let ghost cands = string_views(candidates@);
    let mut related: Vec<String> = Vec::new();
    let mut i: usize = 0;
    assert(string_views(related@) =~= related_upto(all, path@, cands, 0));
    while i < candidates.len()
        invariant
            i <= candidates@.len(),
            all == texts(ls@),
            cands == string_views(candidates@),
            string_views(related@) == related_upto(all, path@, cands, i as int),
        decreases candidates@.len() - i,
    {
        let ghost before = string_views(related@);
        let candidate = candidates[i].as_str();
        assert(cands[i as int] == candidate@);
        let takes = !same_path(candidate, path) && match path_file_stem(candidate) {
            Some(stem) => imports_and_mentions(&ls, &stem),
            None => false,
        };
        assert(takes == is_related(all, path@, cands[i as int]));
        if takes {
            related.push(candidates[i].clone());
            assert(string_views(related@) =~= before.push(cands[i as int]));
        }
        i += 1;
    }
    related
}

} // verus!
