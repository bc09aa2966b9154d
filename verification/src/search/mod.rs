//! Search: ranking what was found, and showing it.
//!
//! Finding candidates means walking the disk and parsing files; that is the
//! caller's part. What was found comes in as matches; what is known from disk
//! about their files comes in as sources.

pub mod callees;
pub mod content;
pub mod context;
pub mod expand;
pub mod facets;
pub mod glob;
pub mod package;
pub mod rank;
pub mod related;
pub mod render;
pub mod siblings;
pub mod strip;
pub mod symbol;
pub mod treesitter;
pub mod truncate;

use vstd::prelude::*;

use crate::format::{search_header, search_header_text};
use crate::order::{ints, key_equal};
use crate::search::glob::{format_glob_result, glob_result_text, GlobResult};
use crate::search::package::parsed_dirs;
use crate::search::rank::{
    lemma_ranked_in_order, opt_view, path_key, path_sort_key, ranked, ranking_of, sort, Ranking,
    Workspace,
};
use crate::search::render::{
    after_matches, file_set, format_matches, format_search_result, multi_file, omitted_text,
    progress_of, rendered_result, MatchSource, Progress,
};
use crate::search::siblings::at_most;
use crate::search::strip::is_word;
use crate::session::Session;
use crate::text::{
    join, join_strings, push_decimal, push_str, slice_chars, string_of, string_views, to_chars,
};
use crate::types::{Match, SearchResult};

verus! {

// ---------------------------------------------------------------------------
// Walking
// ---------------------------------------------------------------------------

/// Whether a directory of this name is never walked into: build output,
/// dependencies, and the insides of version control and tools.
pub open spec fn skip_dir(name: Seq<char>) -> bool {
    name == ".git"@ || name == "node_modules"@ || name == "target"@ || name == "dist"@ || name
        == "build"@ || name == "__pycache__"@ || name == ".pycache"@ || name == "vendor"@ || name
        == ".next"@ || name == ".nuxt"@ || name == "coverage"@ || name == ".cache"@ || name
        == ".tox"@ || name == ".venv"@ || name == ".eggs"@ || name == ".mypy_cache"@ || name
        == ".ruff_cache"@ || name == ".pytest_cache"@ || name == ".turbo"@ || name
        == ".parcel-cache"@ || name == ".svelte-kit"@ || name == "out"@ || name == ".output"@
        || name == ".vercel"@ || name == ".netlify"@ || name == ".gradle"@ || name == ".idea"@
}

/// Whether a directory of this name is never walked into.
pub fn is_skip_dir(name: &str) -> (b: bool)
    ensures
        b == skip_dir(name@),
{
    let n = to_chars(name);
    is_word(&n, ".git") || is_word(&n, "node_modules") || is_word(&n, "target") || is_word(
        &n,
        "dist",
    ) || is_word(&n, "build") || is_word(&n, "__pycache__") || is_word(&n, ".pycache") || is_word(
        &n,
        "vendor",
    ) || is_word(&n, ".next") || is_word(&n, ".nuxt") || is_word(&n, "coverage") || is_word(
        &n,
        ".cache",
    ) || is_word(&n, ".tox") || is_word(&n, ".venv") || is_word(&n, ".eggs") || is_word(
        &n,
        ".mypy_cache",
    ) || is_word(&n, ".ruff_cache") || is_word(&n, ".pytest_cache") || is_word(&n, ".turbo")
        || is_word(&n, ".parcel-cache") || is_word(&n, ".svelte-kit") || is_word(&n, "out")
        || is_word(&n, ".output") || is_word(&n, ".vercel") || is_word(&n, ".netlify") || is_word(
        &n,
        ".gradle",
    ) || is_word(&n, ".idea")
}

/// Files above this size are neither searched nor indexed.
pub const MAX_FILE_SIZE: u64 = 500_000;

/// The estimated number of lines of a file of `byte_len` bytes: one per forty
/// bytes, and one at least.
pub open spec fn estimated_lines(byte_len: u64) -> u32 {
    if byte_len / 40 < 1 {
        1
    } else if byte_len / 40 > u32::MAX {
        u32::MAX
    } else {
        (byte_len / 40) as u32
    }
}

/// Estimates the number of lines of a file from its size.
pub fn estimate_lines(byte_len: u64) -> (n: u32)
    ensures
        n == estimated_lines(byte_len),
{
    let n = byte_len / 40;
    if n < 1 {
        1
    } else if n > u32::MAX as u64 {
        u32::MAX
    } else {
        n as u32
    }
}

// ---------------------------------------------------------------------------
// Queries
// ---------------------------------------------------------------------------

/// Whether a query is a regular expression in slashes: `/pattern/` with a
/// pattern that is not empty.
pub open spec fn is_slashed(query: Seq<char>) -> bool {
    query.len() > 2 && query[0] == '/' && query.last() == '/'
}

/// The pattern of a query: what stands between the slashes, or the query
/// itself.
pub open spec fn pattern_of(query: Seq<char>) -> Seq<char> {
    if is_slashed(query) {
        query.subrange(1, query.len() - 1)
    } else {
        query
    }
}

/// Splits a query into its pattern and whether it is a regular expression.
pub fn parse_pattern(query: &str) -> (r: (String, bool))
    ensures
        r.0@ == pattern_of(query@),
        r.1 == is_slashed(query@),
{
    let q = to_chars(query);
    if q.len() > 2 && q[0] == '/' && q[q.len() - 1] == '/' {
        let inner = slice_chars(&q, 1, q.len() - 1);
        (string_of(&inner), true)
    } else {
        (string_of(&q), false)
    }
}

// ---------------------------------------------------------------------------
// Results
// ---------------------------------------------------------------------------

/// The most matches that a result shows.
pub const MAX_DISPLAY: usize = 40;

/// Whether the usage `u` coincides with the definition `d`: same file, same
/// line.
pub open spec fn coincides(u: Match, d: Match) -> bool {
    d.is_definition && d.line == u.line && path_key(d.path@) == path_key(u.path@)
}

/// Whether a match is a usage on the line of a definition among `all`.
pub open spec fn is_shadowed(m: Match, all: Seq<Match>) -> bool {
    !m.is_definition && exists|j: int| 0 <= j < all.len() && coincides(m, #[trigger] all[j])
}

/// The first `n` matches of `all` without the shadowed usages.
pub open spec fn distinct_upto(all: Seq<Match>, n: int) -> Seq<Match>
    decreases n,
{
    if n <= 0 {
        Seq::empty()
    } else if is_shadowed(all[n - 1], all) {
        distinct_upto(all, n - 1)
    } else {
        distinct_upto(all, n - 1).push(all[n - 1])
    }
}

/// What was found, without usages that coincide with a definition.
pub open spec fn distinct(all: Seq<Match>) -> Seq<Match> {
    distinct_upto(all, all.len() as int)
}

/// The number of definitions among the first `n` matches.
pub open spec fn definitions_upto(s: Seq<Match>, n: int) -> nat
    decreases n,
{
    if n <= 0 {
        0
    } else {
        definitions_upto(s, n - 1) + if s[n - 1].is_definition {
            1nat
        } else {
            0nat
        }
    }
}

/// There are never more definitions than matches.
pub proof fn lemma_definitions_bound(s: Seq<Match>, n: int)
    requires
        0 <= n <= s.len(),
    ensures
        definitions_upto(s, n) <= n,
    decreases n,
{
    if n > 0 {
        lemma_definitions_bound(s, n - 1);
    }
}

/// The number of matches that are shown for a limit: the limit, up to forty.
pub open spec fn display_cap(limit: usize) -> int {
    if limit > MAX_DISPLAY {
        MAX_DISPLAY as int
    } else {
        limit as int
    }
}

/// The result of a search that found `found`: the distinct matches, ranked,
/// cut to the display cap; the counts are over all distinct matches.
pub open spec fn is_result_of(
    result: SearchResult,
    query: Seq<char>,
    scope: Seq<char>,
    found: Seq<Match>,
    r: Ranking,
    limit: usize,
) -> bool {
    let all = distinct(found);
    &&& result.query@ == query
    &&& result.scope@ == scope
    &&& result.matches@ == at_most(ranked(all, r), display_cap(limit))
    &&& result.total_found == all.len()
    &&& result.definitions == definitions_upto(all, all.len() as int)
    &&& result.usages == all.len() - definitions_upto(all, all.len() as int)
}

/// Every result of a search is well formed: definitions and usages add up
/// to no more than was found, and no more is shown than was found.
pub proof fn lemma_result_well_formed(
    result: SearchResult,
    query: Seq<char>,
    scope: Seq<char>,
    found: Seq<Match>,
    r: Ranking,
    limit: usize,
)
    requires
        is_result_of(result, query, scope, found, r, limit),
    ensures
        result.well_formed(),
        result.definitions + result.usages == result.total_found,
        result.matches@.len() <= MAX_DISPLAY,
{
    let all = distinct(found);
    lemma_definitions_bound(all, all.len() as int);
    lemma_ranked_in_order(all, r);
}

/// Removes the usages that coincide with a definition.
fn drop_shadowed(found: Vec<Match>) -> (kept: Vec<Match>)
    ensures
        kept@ == distinct(found@),
{
    let n = found.len();
    let mut keys: Vec<Vec<u32>> = Vec::new();
    let mut k: usize = 0;
    while k < n
        invariant
            k <= n,
            n == found@.len(),
            keys@.len() == k,
            forall|j: int| 0 <= j < k ==> ints(#[trigger] keys@[j]@) == path_key(found@[j].path@),
        decreases n - k,
    {
        keys.push(path_sort_key(found[k].path.as_str()));
        k += 1;
    }
    let mut shadowed: Vec<bool> = Vec::new();
    let mut i: usize = 0;
    while i < n
        invariant
            i <= n,
            n == found@.len(),
            keys@.len() == n,
            shadowed@.len() == i,
            forall|j: int| 0 <= j < n ==> ints(#[trigger] keys@[j]@) == path_key(found@[j].path@),
            forall|j: int| 0 <= j < i ==> shadowed@[j] == is_shadowed(#[trigger] found@[j], found@),
        decreases n - i,
    {
        let mut hit = false;
        if !found[i].is_definition {
            let mut j: usize = 0;
            while j < n
                invariant
                    j <= n,
                    i < n,
                    n == found@.len(),
                    keys@.len() == n,
                    !found@[i as int].is_definition,
                    forall|x: int|
                        0 <= x < n ==> ints(#[trigger] keys@[x]@) == path_key(found@[x].path@),
                    hit == exists|x: int|
                        0 <= x < j && coincides(found@[i as int], #[trigger] found@[x]),
                decreases n - j,
            {
                if found[j].is_definition && found[j].line == found[i].line && key_equal(
                    &keys[j],
                    &keys[i],
                ) {
                    assert(coincides(found@[i as int], found@[j as int]));
                    hit = true;
                }
                j += 1;
            }
        }
        shadowed.push(hit);
        i += 1;
    }
    let ghost all = found@;
    let mut rest = found;
    let mut kept: Vec<Match> = Vec::new();
    let mut i: usize = 0;
    assert(all.skip(0) =~= all);
    while i < n
        invariant
            i <= n,
            n == all.len(),
            shadowed@.len() == n,
            rest@ == all.skip(i as int),
            forall|j: int| 0 <= j < n ==> shadowed@[j] == is_shadowed(#[trigger] all[j], all),
            kept@ == distinct_upto(all, i as int),
        decreases n - i,
    {
        let m = rest.remove(0);
        assert(m == all[i as int]);
        assert(rest@ =~= all.skip(i + 1));
        if !shadowed[i] {
            kept.push(m);
        }
        i += 1;
    }
    kept
}

fn count_definitions(matches: &Vec<Match>) -> (n: usize)
    ensures
        n == definitions_upto(matches@, matches@.len() as int),
        n <= matches@.len(),
{
    let mut n: usize = 0;
    let mut i: usize = 0;
    while i < matches.len()
        invariant
            i <= matches.len(),
            n <= i,
            n == definitions_upto(matches@, i as int),
        decreases matches.len() - i,
    {
        if matches[i].is_definition {
            n += 1;
        }
        i += 1;
    }
    n
}

/// Turns what a search found into its result: usages that coincide with a
/// definition are dropped, the rest is ranked, and the best are shown, at
/// most `limit` and never more than forty.
pub fn assemble(
    query: &str,
    scope: &str,
    found: Vec<Match>,
    context: Option<&str>,
    workspace: &Workspace,
    limit: usize,
) -> (result: SearchResult)
    ensures
        is_result_of(
            result,
            query@,
            scope@,
            found@,
            ranking_of(query@, scope@, opt_view(context), *workspace),
            limit,
        ),
        result.well_formed(),
{
    let ghost r = ranking_of(query@, scope@, opt_view(context), *workspace);
    let mut all = drop_shadowed(found);
    let ghost distinct_found = all@;
    let total_found = all.len();
    let definitions = count_definitions(&all);
    sort(&mut all, query, scope, context, workspace);
    proof {
        lemma_ranked_in_order(distinct_found, r);
    }
    let cap: usize = if limit > MAX_DISPLAY {
        MAX_DISPLAY
    } else {
        limit
    };
    if all.len() > cap {
        all.truncate(cap);
    }
    let result = SearchResult {
        query: query.to_owned(),
        scope: scope.to_owned(),
        matches: all,
        total_found,
        definitions,
        usages: total_found - definitions,
    };
    proof {
        lemma_result_well_formed(result, query@, scope@, found@, r, limit);
    }
    result
}

/// The result of a symbol search that found `found`.
pub fn search_symbol_raw(query: &str, scope: &str, found: Vec<Match>, workspace: &Workspace) -> (result:
    SearchResult)
    ensures
        is_result_of(
            result,
            query@,
            scope@,
            found@,
            ranking_of(query@, scope@, None, *workspace),
            MAX_DISPLAY,
        ),
        result.well_formed(),
{
    assemble(query, scope, found, None, workspace, MAX_DISPLAY)
}

/// The result of a content search that found `found`. A query in slashes
/// stands for the pattern between them.
pub fn search_content_raw(query: &str, scope: &str, found: Vec<Match>, workspace: &Workspace) -> (result:
    SearchResult)
    ensures
        is_result_of(
            result,
            pattern_of(query@),
            scope@,
            found@,
            ranking_of(pattern_of(query@), scope@, None, *workspace),
            MAX_DISPLAY,
        ),
        result.well_formed(),
{
    let (pattern, _) = parse_pattern(query);
    assemble(pattern.as_str(), scope, found, None, workspace, MAX_DISPLAY)
}

/// The text of a result that is shown without expansions and without a
/// session.
pub open spec fn plain_result_text(result: SearchResult, sources: Seq<MatchSource>, dirs: Seq<String>) -> Seq<
    char,
> {
    rendered_result(result, sources, Set::empty(), false, 0, parsed_dirs(dirs)).out
}

/// Formats the result of a symbol search, without expansions.
pub fn format_symbol_result(result: &SearchResult, sources: &Vec<MatchSource>, manifest_dirs: &Vec<String>) -> (text:
    String)
    ensures
        text@ == plain_result_text(*result, sources@, manifest_dirs@),
{
    let mut session = Session::new();
    format_search_result(result, sources, &mut session, false, 0, manifest_dirs)
}

/// Formats the result of a content search, without expansions.
pub fn format_content_result(result: &SearchResult, sources: &Vec<MatchSource>, manifest_dirs: &Vec<String>) -> (text:
    String)
    ensures
        text@ == plain_result_text(*result, sources@, manifest_dirs@),
{
    let mut session = Session::new();
    format_search_result(result, sources, &mut session, false, 0, manifest_dirs)
}

/// Ranks and shows what a symbol search found, without expansions.
pub fn search_symbol(
    query: &str,
    scope: &str,
    found: Vec<Match>,
    sources: &Vec<MatchSource>,
    workspace: &Workspace,
) -> (text: String)
    ensures
        exists|result: SearchResult|
            is_result_of(
                result,
                query@,
                scope@,
                found@,
                ranking_of(query@, scope@, None, *workspace),
                MAX_DISPLAY,
            ) && text@ == plain_result_text(result, sources@, workspace.manifest_dirs@),
{
    let result = search_symbol_raw(query, scope, found, workspace);
    format_symbol_result(&result, sources, &workspace.manifest_dirs)
}

/// Ranks and shows what a symbol search found, with up to `expand`
/// expansions; the session stands in for definitions it has seen expanded.
pub fn search_symbol_expanded(
    query: &str,
    scope: &str,
    found: Vec<Match>,
    sources: &Vec<MatchSource>,
    session: &mut Session,
    expand: usize,
    context: Option<&str>,
    workspace: &Workspace,
) -> (text: String)
    ensures
        exists|result: SearchResult|
            is_result_of(
                result,
                query@,
                scope@,
                found@,
                ranking_of(query@, scope@, opt_view(context), *workspace),
                MAX_DISPLAY,
            ) && ({
                let end = rendered_result(
                    result,
                    sources@,
                    old(session).shown(),
                    true,
                    expand,
                    parsed_dirs(workspace.manifest_dirs@),
                );
                text@ == end.out && final(session).shown() == end.shown
            }),
{
    let result = assemble(query, scope, found, context, workspace, MAX_DISPLAY);
    format_search_result(&result, sources, session, true, expand, &workspace.manifest_dirs)
}

/// Ranks and shows what a content search found, without expansions.
pub fn search_content(
    query: &str,
    scope: &str,
    found: Vec<Match>,
    sources: &Vec<MatchSource>,
    workspace: &Workspace,
) -> (text: String)
    ensures
        exists|result: SearchResult|
            is_result_of(
                result,
                pattern_of(query@),
                scope@,
                found@,
                ranking_of(pattern_of(query@), scope@, None, *workspace),
                MAX_DISPLAY,
            ) && text@ == plain_result_text(result, sources@, workspace.manifest_dirs@),
{
    let result = search_content_raw(query, scope, found, workspace);
    format_content_result(&result, sources, &workspace.manifest_dirs)
}

/// Ranks and shows what a content search found, with up to `expand`
/// expansions.
pub fn search_content_expanded(
    query: &str,
    scope: &str,
    found: Vec<Match>,
    sources: &Vec<MatchSource>,
    session: &mut Session,
    expand: usize,
    context: Option<&str>,
    workspace: &Workspace,
) -> (text: String)
    ensures
        exists|result: SearchResult|
            is_result_of(
                result,
                pattern_of(query@),
                scope@,
                found@,
                ranking_of(pattern_of(query@), scope@, opt_view(context), *workspace),
                MAX_DISPLAY,
            ) && ({
                let end = rendered_result(
                    result,
                    sources@,
                    old(session).shown(),
                    true,
                    expand,
                    parsed_dirs(workspace.manifest_dirs@),
                );
                text@ == end.out && final(session).shown() == end.shown
            }),
{
    let (pattern, _) = parse_pattern(query);
    let result = assemble(pattern.as_str(), scope, found, context, workspace, MAX_DISPLAY);
    format_search_result(&result, sources, session, true, expand, &workspace.manifest_dirs)
}

/// Shows the result of a file name search.
pub fn search_glob(result: &GlobResult, scope: &str) -> (text: String)
    ensures
        text@ == glob_result_text(*result, scope@),
{
    format_glob_result(result, scope)
}

/// One query of a search for several symbols, with what it found.
pub struct Found {
    pub query: String,
    pub matches: Vec<Match>,
}

/// The expansions that the queries of one search share: none if none are
/// asked for, else as many as asked for, and one per query at least.
pub open spec fn shared_budget(expand: usize, queries: nat) -> nat {
    if expand == 0 {
        0
    } else if expand as nat >= queries {
        expand as nat
    } else {
        queries
    }
}

/// The rendering of one query's section, begun with the expansions, files
/// and session of `p`: header, matches, and the note on what is not shown.
pub open spec fn section_progress(
    p: Progress,
    query: Seq<char>,
    scope: Seq<char>,
    found: Seq<Match>,
    sources: Seq<MatchSource>,
    r: Ranking,
) -> Progress {
    let all = distinct(found);
    let matches = at_most(ranked(all, r), MAX_DISPLAY as int);
    let definitions = definitions_upto(all, all.len() as int);
    let start = Progress {
        out: search_header_text(
            query,
            scope,
            matches.len(),
            definitions,
            (all.len() - definitions) as nat,
        ),
        remaining: p.remaining,
        expanded: p.expanded,
        shown: p.shown,
    };
    let body = after_matches(start, matches, sources, multi_file(matches), true, matches.len() as int);
    Progress {
        out: body.out + omitted_text(all.len(), matches.len()),
        remaining: body.remaining,
        expanded: body.expanded,
        shown: body.shown,
    }
}

/// The state after the sections of the first `n` queries; its text is that
/// of the last section.
pub open spec fn sections_progress(
    p: Progress,
    searches: Seq<Found>,
    scope: Seq<char>,
    sources: Seq<MatchSource>,
    context: Option<Seq<char>>,
    workspace: Workspace,
    n: int,
) -> Progress
    decreases n,
{
    if n <= 0 {
        p
    } else {
        section_progress(
            sections_progress(p, searches, scope, sources, context, workspace, n - 1),
            searches[n - 1].query@,
            scope,
            searches[n - 1].matches@,
            sources,
            ranking_of(searches[n - 1].query@, scope, context, workspace),
        )
    }
}

/// The sections of the first `n` queries.
pub open spec fn sections_text(
    p: Progress,
    searches: Seq<Found>,
    scope: Seq<char>,
    sources: Seq<MatchSource>,
    context: Option<Seq<char>>,
    workspace: Workspace,
    n: int,
) -> Seq<Seq<char>>
    decreases n,
{
    if n <= 0 {
        Seq::empty()
    } else {
        sections_text(p, searches, scope, sources, context, workspace, n - 1).push(
            sections_progress(p, searches, scope, sources, context, workspace, n).out,
        )
    }
}

/// Ranks and shows what a search for several symbols found: one section per
/// query, with a rule between sections.
///
/// The queries share the expansions and the list of expanded files, so that
/// no file is expanded twice.
pub fn search_multi_symbol_expanded(
    searches: &Vec<Found>,
    scope: &str,
    sources: &Vec<MatchSource>,
    session: &mut Session,
    expand: usize,
    context: Option<&str>,
    workspace: &Workspace,
) -> (text: String)
    ensures
        ({
            let start = Progress {
                out: Seq::empty(),
                remaining: shared_budget(expand, searches@.len()),
                expanded: Set::empty(),
                shown: old(session).shown(),
            };
            let n = searches@.len() as int;
            &&& text@ == join(
                sections_text(start, searches@, scope@, sources@, opt_view(context), *workspace, n),
                "\n\n---\n"@,
            )
            &&& final(session).shown() == sections_progress(
                start,
                searches@,
                scope@,
                sources@,
                opt_view(context),
                *workspace,
                n,
            ).shown
        }),
{
    let mut expand_remaining: usize = if expand == 0 {
        0
    } else if expand >= searches.len() {
        expand
    } else {
        searches.len()
    };
    let mut expanded_files: Vec<String> = Vec::new();
    assert(file_set(expanded_files@) =~= Set::<Seq<Seq<char>>>::empty());
    let mut sections: Vec<String> = Vec::new();
    let ghost start = Progress {
        out: Seq::empty(),
        remaining: shared_budget(expand, searches@.len()),
        expanded: Set::empty(),
        shown: session.shown(),
    };
    let ghost ctx = opt_view(context);
    let ghost mut last: Seq<char> = Seq::empty();
    let mut i: usize = 0;
    assert(string_views(sections@) =~= Seq::<Seq<char>>::empty());
    while i < searches.len()
        invariant
            i <= searches.len(),
            ctx == opt_view(context),
            sections@.len() == i,
            string_views(sections@) == sections_text(
                start,
                searches@,
                scope@,
                sources@,
                ctx,
                *workspace,
                i as int,
            ),
            progress_of(last, expand_remaining, expanded_files@, *session) == sections_progress(
                start,
                searches@,
                scope@,
                sources@,
                ctx,
                *workspace,
                i as int,
            ),
        decreases searches.len() - i,
    {
        let search = &searches[i];
        let ghost before = string_views(sections@);
        let result = assemble(
            search.query.as_str(),
            scope,
            crate::types::duplicate_matches(&search.matches),
            context,
            workspace,
            MAX_DISPLAY,
        );
        let mut out = search_header(
            search.query.as_str(),
            scope,
            result.matches.len(),
            result.definitions,
            result.usages,
        );
        format_matches(
            &result.matches,
            sources,
            session,
            true,
            &mut expand_remaining,
            &mut expanded_files,
            &mut out,
        );
        let ghost body = out@;
        if result.total_found > result.matches.len() {
            let omitted = result.total_found - result.matches.len();
            push_str(&mut out, "\n\n... and ");
            push_decimal(&mut out, omitted as u64);
            push_str(&mut out, " more matches. Narrow with scope.");
        }
        assert(out@ =~= body + omitted_text(result.total_found as nat, result.matches@.len()));
        proof {
            last = out@;
        }
        sections.push(out);
        assert(string_views(sections@) =~= before.push(last));
        i += 1;
    }
    join_strings(&sections, "\n\n---\n")
}

} // verus!
