//! Content search in one file: the lines that hold a literal text, and the
//! lines that a regular expression finds.

use regex::Regex;
use vstd::prelude::*;

use crate::error::TilthError;
use crate::search::symbol::{text_of_line, usage_match, FileInfo};
use crate::text::{
    contains_sub, find_from, lines, split_lines, string_of, texts, to_chars,
};
use crate::types::{match_views, Match, MatchView};

verus! {

// ---------------------------------------------------------------------------
// Literal text
// ---------------------------------------------------------------------------

/// The lines among the first `n` that hold `pattern`, as far as a `u32` can
/// number them.
pub open spec fn holding_upto(ls: Seq<Seq<char>>, pattern: Seq<char>, file: FileInfo, n: int) -> Seq<
    MatchView,
>
    decreases n,
{
    if n <= 0 {
        Seq::empty()
    } else if n <= u32::MAX && contains_sub(ls[n - 1], pattern) {
        holding_upto(ls, pattern, file, n - 1).push(usage_match(ls[n - 1], n, file))
    } else {
        holding_upto(ls, pattern, file, n - 1)
    }
}

/// The lines of a file that hold the literal `pattern`: one match per line.
pub fn find_content(content: &str, file: &FileInfo, pattern: &str) -> (found: Vec<Match>)
    ensures
        match_views(found@) == holding_upto(
            lines(content@),
            pattern@,
            *file,
            lines(content@).len() as int,
        ),
{
    let chars = to_chars(content);
    let ls = split_lines(&chars);
    let p = to_chars(pattern);
    let ghost all = lines(content@);
    let mut found: Vec<Match> = Vec::new();
    let mut i: usize = 0;
    assert(match_views(found@) =~= holding_upto(all, pattern@, *file, 0));
    while i < ls.len()
        invariant
            i <= ls@.len(),
            all == texts(ls@),
            p@ == pattern@,
            match_views(found@) == holding_upto(all, pattern@, *file, i as int),
        decreases ls@.len() - i,
    {
        let ghost before = match_views(found@);
        if i < u32::MAX as usize && find_from(&ls[i], &p, 0).is_some() {
            let m = Match {
                path: file.path.clone(),
                line: (i + 1) as u32,
                text: text_of_line(&ls[i]),
                is_definition: false,
                def_range: None,
                def_name: None,
                def_weight: 0,
                impl_target: None,
                exact: false,
                file_lines: file.file_lines,
                mtime: file.mtime,
            };
            found.push(m);
            assert(match_views(found@) =~= before.push(usage_match(all[i as int], i + 1, *file)));
        }
        i += 1;
    }
    found
}

// ---------------------------------------------------------------------------
// Regular expressions
// ---------------------------------------------------------------------------

/// `regex::Regex`: a compiled regular expression.
#[verifier::external_type_specification]
#[verifier::external_body]
pub struct ExRegex(Regex);

/// The regular expression that `Regex::new` makes of `pattern`; none where
/// the pattern is refused.
pub uninterp spec fn compiled(pattern: Seq<char>) -> Option<Regex>;

/// Whether a regular expression has a match somewhere in `text`, as
/// `Regex::is_match` tells.
pub uninterp spec fn finds(re: Regex, text: Seq<char>) -> bool;

/// Whether `pattern` is a regular expression.
pub open spec fn regex_compiles(pattern: Seq<char>) -> bool {
    compiled(pattern).is_some()
}

/// Whether `pattern` is a regular expression that has a match somewhere in
/// `text`.
pub open spec fn regex_matches(pattern: Seq<char>, text: Seq<char>) -> bool {
    match compiled(pattern) {
        Some(re) => finds(re, text),
        None => false,
    }
}

/// Calls `Regex::new`. Claimed: what comes back depends on the pattern alone;
/// it is `None` where the pattern is refused.
#[verifier::external_body]
fn compile(pattern: &str) -> (re: Option<Regex>)
    ensures
        re == compiled(pattern@),
{
    Regex::new(pattern).ok()
}

/// Calls `Regex::is_match`. Claimed: the answer depends on the expression
/// and the text alone.
#[verifier::external_body]
fn has_match(re: &Regex, text: &str) -> (b: bool)
    ensures
        b == finds(*re, text@),
{
    re.is_match(text)
}

/// The matches for the lines among the first `n` whose flag is set, as far
/// as a `u32` can number them.
pub open spec fn flagged_upto(ls: Seq<Seq<char>>, flags: Seq<bool>, file: FileInfo, n: int) -> Seq<
    MatchView,
>
    decreases n,
{
    if n <= 0 {
        Seq::empty()
    } else if n <= u32::MAX && n <= flags.len() && flags[n - 1] {
        flagged_upto(ls, flags, file, n - 1).push(usage_match(ls[n - 1], n, file))
    } else {
        flagged_upto(ls, flags, file, n - 1)
    }
}

/// The matches for the lines whose flag is set: one match per line. A line
/// without a flag counts as not set.
pub fn flagged_matches(ls: &Vec<Vec<char>>, file: &FileInfo, flags: &Vec<bool>) -> (found: Vec<Match>)
    ensures
        match_views(found@) == flagged_upto(texts(ls@), flags@, *file, ls@.len() as int),
{
    let ghost all = texts(ls@);
    let mut found: Vec<Match> = Vec::new();
    let mut i: usize = 0;
    assert(match_views(found@) =~= flagged_upto(all, flags@, *file, 0));
    while i < ls.len()
        invariant
            i <= ls@.len(),
            all == texts(ls@),
            match_views(found@) == flagged_upto(all, flags@, *file, i as int),
        decreases ls@.len() - i,
    {
        let ghost before = match_views(found@);
        if i < u32::MAX as usize && i < flags.len() && flags[i] {
            let m = Match {
                path: file.path.clone(),
                line: (i + 1) as u32,
                text: text_of_line(&ls[i]),
                is_definition: false,
                def_range: None,
                def_name: None,
                def_weight: 0,
                impl_target: None,
                exact: false,
                file_lines: file.file_lines,
                mtime: file.mtime,
            };
            found.push(m);
            assert(match_views(found@) =~= before.push(usage_match(all[i as int], i + 1, *file)));
        }
        i += 1;
    }
    found
}

/// The lines among the first `n` in which the expression `pattern` has a
/// match, as far as a `u32` can number them.
pub open spec fn fitting_upto(ls: Seq<Seq<char>>, pattern: Seq<char>, file: FileInfo, n: int) -> Seq<
    MatchView,
>
    decreases n,
{
    if n <= 0 {
        Seq::empty()
    } else if n <= u32::MAX && regex_matches(pattern, ls[n - 1]) {
        fitting_upto(ls, pattern, file, n - 1).push(usage_match(ls[n - 1], n, file))
    } else {
        fitting_upto(ls, pattern, file, n - 1)
    }
}

/// Flags that tell for each line whether the expression has a match in it
/// select the lines that fit the expression.
pub proof fn lemma_flagged_fits(
    ls: Seq<Seq<char>>,
    flags: Seq<bool>,
    pattern: Seq<char>,
    file: FileInfo,
    n: int,
)
    requires
        flags.len() == ls.len(),
        forall|i: int| 0 <= i < ls.len() ==> flags[i] == regex_matches(pattern, #[trigger] ls[i]),
        0 <= n <= ls.len(),
    ensures
        flagged_upto(ls, flags, file, n) == fitting_upto(ls, pattern, file, n),
    decreases n,
{
    if n > 0 {
        lemma_flagged_fits(ls, flags, pattern, file, n - 1);
    }
}

/// The reason given for a pattern that is no regular expression.
pub open spec fn invalid_regex_reason() -> Seq<char> {
    "not a valid regular expression"@
}

/// The lines of a file in which the regular expression `pattern` has a
/// match: one match per line. A pattern that is no regular expression is an
/// invalid query.
pub fn find_regex(content: &str, file: &FileInfo, pattern: &str) -> (r: Result<Vec<Match>, TilthError>)
    ensures
        match r {
            Ok(found) => regex_compiles(pattern@) && match_views(found@) == fitting_upto(
                lines(content@),
                pattern@,
                *file,
                lines(content@).len() as int,
            ),
            Err(e) => !regex_compiles(pattern@) && (e matches TilthError::InvalidQuery {
                query,
                reason,
            } && query@ == pattern@ && reason@ == invalid_regex_reason()),
        },
{
    let re = match compile(pattern) {
        Some(re) => re,
        None => {
            return Err(
                TilthError::InvalidQuery {
                    query: string_of(&to_chars(pattern)),
                    reason: string_of(&to_chars("not a valid regular expression")),
                },
            );
        },
    };
    let chars = to_chars(content);
    let ls = split_lines(&chars);
    let mut flags: Vec<bool> = Vec::new();
    let mut i: usize = 0;
    while i < ls.len()
        invariant
            i <= ls@.len(),
            flags@.len() == i,
            compiled(pattern@) == Some(re),
            forall|k: int| 0 <= k < i ==> flags@[k] == regex_matches(pattern@, #[trigger] ls@[k]@),
        decreases ls@.len() - i,
    {
        let line = string_of(&ls[i]);
        flags.push(has_match(&re, line.as_str()));
        i += 1;
    }
    let found = flagged_matches(&ls, file, &flags);
    proof {
        let all = texts(ls@);
        assert forall|k: int| 0 <= k < all.len() implies flags@[k] == regex_matches(
            pattern@,
            #[trigger] all[k],
        ) by {
            assert(all[k] == ls@[k]@);
        }
        lemma_flagged_fits(all, flags@, pattern@, *file, ls@.len() as int);
    }
    Ok(found)
}

} // verus!
