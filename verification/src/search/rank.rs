//! Ranking: a deterministic score per match, and the order it induces.
//!
//! Matches are ordered by score, highest first; equal scores by path, then by
//! line. The order is total up to matches that agree in all three, and those
//! keep the order they came in.

use vstd::prelude::*;

use crate::order::{
    asymmetric, insert_sorted, ints, key_equal, key_less, lemma_in_order_pairwise,
    lemma_insert_position, lemma_lex_asymmetric, lemma_lex_total, lemma_lex_transitive,
    lemma_sorted_fixes_ordered, lemma_sorted_idempotent, lemma_sorted_in_order, lex_lt,
    negatively_transitive, sorted,
};
use crate::paths::{
    components, depth_below, dot, dotdot, file_stem, is_normal_component, parent, path_components,
    path_depth_below, path_file_stem, path_parent, root,
};
use crate::search::package::{
    known_dirs, package_root, package_root_of, parse_dirs, parsed_dirs, same_dir,
};
use crate::search::strip::is_word;
use crate::text::{ascii_lower, contains_sub, find_from, lower_chars, matches_at, texts, to_chars};
use crate::types::Match;

verus! {

/// What ranking needs to know of the world outside: the time, and which
/// directories hold a package manifest.
pub struct Workspace {
    /// The current time, in seconds since the Unix epoch.
    pub now: u64,
    /// The directories that hold a package manifest.
    pub manifest_dirs: Vec<String>,
}

// ---------------------------------------------------------------------------
// Score terms
// ---------------------------------------------------------------------------

/// The points for how recently a file changed: 100 within the last hour, 80
/// within the last day, 50 within the last week, 20 within thirty days, else
/// none. A file from the future counts as just changed.
pub open spec fn recency_points(mtime: u64, now: u64) -> int {
    let age = if now >= mtime {
        now - mtime
    } else {
        0
    };
    if age <= 3_600 {
        100
    } else if age <= 86_400 {
        80
    } else if age <= 604_800 {
        50
    } else if age <= 2_592_000 {
        20
    } else {
        0
    }
}

/// The points for how recently a file changed.
pub fn recency(mtime: u64, now: u64) -> (points: u32)
    ensures
        points == recency_points(mtime, now),
{
    let age: u64 = if now >= mtime {
        now - mtime
    } else {
        0
    };
    if age <= 3_600 {
        100
    } else if age <= 86_400 {
        80
    } else if age <= 604_800 {
        50
    } else if age <= 2_592_000 {
        20
    } else {
        0
    }
}

/// The points for closeness to the scope: 200 less 20 for each component of
/// the path below the scope, and never below zero.
pub open spec fn scope_points(path: Seq<char>, scope: Seq<char>) -> int {
    let depth = depth_below(path, scope);
    if depth >= 10 {
        0
    } else {
        200 - 20 * depth
    }
}

/// The points for closeness to the scope.
pub fn scope_proximity(path: &str, scope: &str) -> (points: u32)
    ensures
        points == scope_points(path@, scope@),
{
    let depth = path_depth_below(path, scope);
    if depth >= 10 {
        0
    } else {
        200 - 20 * (depth as u32)
    }
}

/// The directory names that mark a path as vendored or generated.
pub open spec fn vendor_name(name: Seq<char>) -> bool {
    name == "node_modules"@ || name == "vendor"@ || name == "dist"@ || name == "build"@ || name
        == ".git"@ || name == "target"@ || name == "__pycache__"@ || name == ".venv"@ || name
        == "venv"@ || name == "pkg"@ || name == "out"@
}

/// Whether some component of the path is a vendor directory name.
pub open spec fn vendor_path(path: Seq<char>) -> bool {
    exists|i: int| 0 <= i < components(path).len() && vendor_name(#[trigger] components(path)[i])
}

fn is_vendor_name(name: &Vec<char>) -> (b: bool)
    ensures
        b == vendor_name(name@),
{
    is_word(name, "node_modules") || is_word(name, "vendor") || is_word(name, "dist") || is_word(
        name,
        "build",
    ) || is_word(name, ".git") || is_word(name, "target") || is_word(name, "__pycache__")
        || is_word(name, ".venv") || is_word(name, "venv") || is_word(name, "pkg") || is_word(
        name,
        "out",
    )
}

/// Whether the path runs through a vendor directory.
pub fn is_vendor_path(path: &str) -> (b: bool)
    ensures
        b == vendor_path(path@),
{
    let cs = path_components(path);
    let mut i: usize = 0;
    while i < cs.len()
        invariant
            i <= cs.len(),
            texts(cs@) == components(path@),
            forall|j: int| 0 <= j < i ==> !vendor_name(#[trigger] components(path@)[j]),
        decreases cs.len() - i,
    {
        if is_vendor_name(&cs[i]) {
            assert(vendor_name(components(path@)[i as int]));
            return true;
        }
        i += 1;
    }
    false
}

/// The points for a file stem that resembles the query, both in lower case:
/// 300 if they are equal, 150 if the stem begins with the query and goes on
/// with `_` or `.`, 100 if the stem contains the query, else none. An empty
/// query and a path without file name earn nothing.
pub open spec fn basename_points(path: Seq<char>, query: Seq<char>) -> int {
    if query.len() == 0 {
        0
    } else {
        match file_stem(path) {
            None => 0,
            Some(stem) => {
                let s = ascii_lower(stem);
                let q = ascii_lower(query);
                if s == q {
                    300
                } else if q.is_prefix_of(s) && s.len() > q.len() && (s[q.len() as int] == '_'
                    || s[q.len() as int] == '.') {
                    150
                } else if contains_sub(s, q) {
                    100
                } else {
                    0
                }
            },
        }
    }
}

/// The points for a file stem that resembles the query.
pub fn basename_boost(path: &str, query: &str) -> (points: i32)
    ensures
        points == basename_points(path@, query@),
{
    let q0 = to_chars(query);
    if q0.len() == 0 {
        return 0;
    }
    let stem = match path_file_stem(path) {
        Some(s) => s,
        None => {
            return 0;
        },
    };
    let s = lower_chars(&stem);
    let q = lower_chars(&q0);
    if crate::text::chars_eq(&s, &q) {
        return 300;
    }
    let prefixed = matches_at(&s, &q, 0);
    proof {
        if prefixed {
            assert(s@.subrange(0, q@.len() as int) =~= s@.subrange(0, 0 + q@.len() as int));
        }
        if q@.is_prefix_of(s@) {
            assert(s@.subrange(0, 0 + q@.len() as int) =~= q@);
        }
    }
    if prefixed && s.len() > q.len() && (s[q.len()] == '_' || s[q.len()] == '.') {
        return 150;
    }
    if find_from(&s, &q, 0).is_some() {
        return 100;
    }
    0
}

/// The points for closeness to the file being edited: 100 for a match in the
/// same directory, 75 for one in the same package, else none.
pub open spec fn context_points(path: Seq<char>, context: Option<Seq<char>>, known: Set<
    Seq<Seq<char>>,
>) -> int {
    match context {
        None => 0,
        Some(c) => {
            if parent(c).is_some() && parent(path) == parent(c) {
                100
            } else if package_root_of(c, known).is_some() && package_root_of(path, known)
                == package_root_of(c, known) {
                75
            } else {
                0
            }
        },
    }
}

/// The points for closeness to the file being edited, whose directory and
/// package root are given.
pub fn context_proximity(
    path: &str,
    ctx_parent: &Option<Vec<Vec<char>>>,
    ctx_root: &Option<Vec<Vec<char>>>,
    known: &Vec<Vec<Vec<char>>>,
) -> (points: i32)
    ensures
        points == if ctx_parent.is_some() && parent(path@) == Some(texts(ctx_parent.unwrap()@)) {
            100int
        } else if ctx_root.is_some() && package_root_of(path@, known_dirs(known@)) == Some(
            texts(ctx_root.unwrap()@),
        ) {
            75int
        } else {
            0int
        },
{
    let dir = path_parent(path);
    if same_dir(&dir, ctx_parent) {
        return 100;
    }
    if ctx_root.is_some() {
        let found = package_root(path, known);
        if same_dir(&found, ctx_root) {
            return 75;
        }
    }
    0
}

/// Everything a score depends on besides the match itself.
pub struct Ranking {
    pub query: Seq<char>,
    pub scope: Seq<char>,
    pub context: Option<Seq<char>>,
    pub now: u64,
    pub known: Set<Seq<Seq<char>>>,
}

/// The score of a match: the sum of its points.
pub open spec fn score_of(m: Match, r: Ranking) -> int {
    (if m.is_definition {
        m.def_weight * 10
    } else {
        0
    }) + (if m.exact {
        500int
    } else {
        0int
    }) + scope_points(m.path@, r.scope) + recency_points(m.mtime, r.now) + (if 0 < m.file_lines
        < 200 {
        50int
    } else {
        0int
    }) + context_points(m.path@, r.context, r.known) + basename_points(m.path@, r.query) - (
    if vendor_path(m.path@) {
        200int
    } else {
        0int
    })
}

/// The characters of an optional string.
pub open spec fn opt_view(s: Option<&str>) -> Option<Seq<char>> {
    match s {
        Some(c) => Some(c@),
        None => None,
    }
}

/// What a sort has worked out once, before it looks at any match.
pub struct Prepared {
    pub ctx_parent: Option<Vec<Vec<char>>>,
    pub ctx_root: Option<Vec<Vec<char>>>,
    pub known: Vec<Vec<Vec<char>>>,
    pub now: u64,
}

impl Prepared {
    /// Whether the directory and package root held here are those of `context`.
    pub open spec fn stands_for(&self, context: Option<Seq<char>>) -> bool {
        match context {
            None => self.ctx_parent.is_none() && self.ctx_root.is_none(),
            Some(c) => {
                &&& match parent(c) {
                    None => self.ctx_parent.is_none(),
                    Some(dir) => self.ctx_parent.is_some() && texts(self.ctx_parent.unwrap()@)
                        == dir,
                }
                &&& match package_root_of(c, known_dirs(self.known@)) {
                    None => self.ctx_root.is_none(),
                    Some(dir) => self.ctx_root.is_some() && texts(self.ctx_root.unwrap()@) == dir,
                }
            },
        }
    }

    /// The ranking that scores computed with this preparation follow.
    pub open spec fn ranking(&self, query: Seq<char>, scope: Seq<char>, context: Option<Seq<char>>) -> Ranking {
        Ranking { query, scope, context, now: self.now, known: known_dirs(self.known@) }
    }
}

/// The ranking that a call of `sort` stands for.
pub open spec fn ranking_of(
    query: Seq<char>,
    scope: Seq<char>,
    context: Option<Seq<char>>,
    workspace: Workspace,
) -> Ranking {
    Ranking {
        query,
        scope,
        context,
        now: workspace.now,
        known: parsed_dirs(workspace.manifest_dirs@),
    }
}

/// Works out the directory and the package root of the context file.
pub fn prepare(context: Option<&str>, workspace: &Workspace) -> (p: Prepared)
    ensures
        p.stands_for(opt_view(context)),
        p.now == workspace.now,
        known_dirs(p.known@) == parsed_dirs(workspace.manifest_dirs@),
{
    let known = parse_dirs(&workspace.manifest_dirs);
    match context {
        Some(c) => {
            let ctx_parent = path_parent(c);
            let ctx_root = package_root(c, &known);
            Prepared { ctx_parent, ctx_root, known, now: workspace.now }
        },
        None => Prepared { ctx_parent: None, ctx_root: None, known, now: workspace.now },
    }
}

/// The score of one match.
pub fn score(m: &Match, query: &str, scope: &str, context: Option<&str>, prepared: &Prepared) -> (s:
    i32)
    requires
        prepared.stands_for(opt_view(context)),
    ensures
        s == score_of(*m, prepared.ranking(query@, scope@, opt_view(context))),
{
    let ghost r = prepared.ranking(query@, scope@, opt_view(context));
    let mut s: i32 = 0;
    if m.is_definition {
        s = s + (m.def_weight as i32) * 10;
    }
    if m.exact {
        s = s + 500;
    }
    s = s + scope_proximity(m.path.as_str(), scope) as i32;
    s = s + recency(m.mtime, prepared.now) as i32;
    if m.file_lines > 0 && m.file_lines < 200 {
        s = s + 50;
    }
    let c = context_proximity(
        m.path.as_str(),
        &prepared.ctx_parent,
        &prepared.ctx_root,
        &prepared.known,
    );
    assert(c == context_points(m.path@, r.context, r.known));
    s = s + c;
    s = s + basename_boost(m.path.as_str(), query);
    if is_vendor_path(m.path.as_str()) {
        s = s - 200;
    }
    s
}

// ---------------------------------------------------------------------------
// The order of paths
// ---------------------------------------------------------------------------

/// The characters of a name as numbers, each one above its code point, so
/// that zero can end the name.
pub open spec fn chars_key(c: Seq<char>) -> Seq<int> {
    Seq::new(c.len(), |i: int| (c[i] as u32) as int + 1)
}

/// The sort key of one component: its kind, then its name, then zero. The
/// root is below `.`, which is below `..`, which is below every name; names
/// are ordered by their characters.
pub open spec fn component_key(c: Seq<char>) -> Seq<int> {
    if c == root() {
        seq![1int, 0int]
    } else if c == dot() {
        seq![2int, 0int]
    } else if c == dotdot() {
        seq![3int, 0int]
    } else {
        seq![4int] + chars_key(c) + seq![0int]
    }
}

/// The sort key of a list of components: their keys one after the other.
pub open spec fn components_key(cs: Seq<Seq<char>>) -> Seq<int>
    decreases cs.len(),
{
    if cs.len() == 0 {
        Seq::empty()
    } else {
        components_key(cs.drop_last()) + component_key(cs.last())
    }
}

/// The sort key of a path. Paths are ordered component by component.
pub open spec fn path_key(path: Seq<char>) -> Seq<int> {
    components_key(components(path))
}

/// The sort key of `path`.
pub fn path_sort_key(path: &str) -> (key: Vec<u32>)
    ensures
        ints(key@) == path_key(path@),
{
    let cs = path_components(path);
    let mut key: Vec<u32> = Vec::new();
    let mut i: usize = 0;
    assert(texts(cs@).take(0) =~= Seq::<Seq<char>>::empty());
    assert(ints(key@) =~= components_key(texts(cs@).take(0)));
    while i < cs.len()
        invariant
            i <= cs.len(),
            texts(cs@) == components(path@),
            ints(key@) == components_key(texts(cs@).take(i as int)),
        decreases cs.len() - i,
    {
        let c = &cs[i];
        let ghost before = ints(key@);
        proof {
            assert(texts(cs@).take(i + 1).drop_last() =~= texts(cs@).take(i as int));
            assert(texts(cs@).take(i + 1).last() == c@);
        }
        if !is_normal_component(c) {
            let kind: u32 = if c.len() == 1 && c[0] == '/' {
                assert(c@ =~= root());
                1
            } else if c.len() == 1 {
                assert(c@ == dot());
                2
            } else {
                assert(c@ == dotdot());
                3
            };
            key.push(kind);
            key.push(0);
            assert(ints(key@) =~= before + component_key(c@));
        } else {
            key.push(4);
            let mut j: usize = 0;
            while j < c.len()
                invariant
                    j <= c.len(),
                    ints(key@) == before + seq![4int] + chars_key(c@.take(j as int)),
                decreases c.len() - j,
            {
                let ghost so_far = ints(key@);
                let ch: char = c[j];
                let code: u32 = ch as u32;
                assert(code <= 0x10FFFF) by {
                    vstd::utf8::char_is_scalar(ch);
                }
                key.push(code + 1);
                j += 1;
                assert(chars_key(c@.take(j as int)) =~= chars_key(c@.take(j - 1)).push(
                    (c@[j - 1] as u32) as int + 1,
                ));
                assert(ints(key@) =~= so_far.push((c@[j - 1] as u32) as int + 1));
            }
            let ghost so_far = ints(key@);
            key.push(0);
            assert(c@.take(c.len() as int) =~= c@);
            assert(ints(key@) =~= so_far.push(0int));
            assert(ints(key@) =~= before + component_key(c@));
        }
        i += 1;
    }
    assert(texts(cs@).take(cs.len() as int) =~= texts(cs@));
    key
}

// ---------------------------------------------------------------------------
// The order of matches
// ---------------------------------------------------------------------------

/// Whether `a` ranks strictly before `b`: by score, highest first; then by
/// path; then by line.
pub open spec fn before(a: Match, b: Match, r: Ranking) -> bool {
    let sa = score_of(a, r);
    let sb = score_of(b, r);
    let ka = path_key(a.path@);
    let kb = path_key(b.path@);
    sa > sb || (sa == sb && (lex_lt(ka, kb) || (ka == kb && a.line < b.line)))
}

/// If `a` ranks before `b`, then `b` does not rank before `a`.
pub proof fn lemma_before_asymmetric(a: Match, b: Match, r: Ranking)
    ensures
        before(a, b, r) ==> !before(b, a, r),
        !before(a, a, r),
{
    lemma_lex_asymmetric(path_key(a.path@), path_key(b.path@));
    lemma_lex_asymmetric(path_key(b.path@), path_key(a.path@));
    lemma_lex_asymmetric(path_key(a.path@), path_key(a.path@));
}

/// Ranking before is transitive.
pub proof fn lemma_before_transitive(a: Match, b: Match, c: Match, r: Ranking)
    requires
        before(a, b, r),
        before(b, c, r),
    ensures
        before(a, c, r),
{
    let ka = path_key(a.path@);
    let kb = path_key(b.path@);
    let kc = path_key(c.path@);
    if lex_lt(ka, kb) && lex_lt(kb, kc) {
        lemma_lex_transitive(ka, kb, kc);
    }
}

/// Not ranking after is transitive too: if `b` does not rank before `a`, and
/// `c` does not rank before `b`, then `c` does not rank before `a`.
pub proof fn lemma_not_before_transitive(a: Match, b: Match, c: Match, r: Ranking)
    requires
        !before(b, a, r),
        !before(c, b, r),
    ensures
        !before(c, a, r),
{
    let ka = path_key(a.path@);
    let kb = path_key(b.path@);
    let kc = path_key(c.path@);
    lemma_lex_total(ka, kb);
    lemma_lex_total(kb, kc);
    lemma_lex_total(ka, kc);
    lemma_lex_asymmetric(ka, kb);
    lemma_lex_asymmetric(kb, kc);
    lemma_lex_asymmetric(ka, kc);
    lemma_lex_asymmetric(kc, ka);
    if lex_lt(kc, ka) {
        if lex_lt(ka, kb) {
            lemma_lex_transitive(kc, ka, kb);
        }
        if lex_lt(kb, kc) {
            lemma_lex_transitive(kb, kc, ka);
        }
    }
}

/// The order of matches under `r`, as a relation.
pub open spec fn rank_order(r: Ranking) -> spec_fn(Match, Match) -> bool {
    |a: Match, b: Match| before(a, b, r)
}

/// The matches of `s` in ranked order. Matches that agree in score, path and
/// line keep the order they have in `s`.
pub open spec fn ranked(s: Seq<Match>, r: Ranking) -> Seq<Match> {
    sorted(s, rank_order(r))
}

/// The rank order is a strict weak order.
pub proof fn lemma_rank_order_is_order(r: Ranking)
    ensures
        asymmetric(rank_order(r)),
        negatively_transitive(rank_order(r)),
{
    let lt = rank_order(r);
    assert forall|a: Match, b: Match| #[trigger] lt(a, b) implies !lt(b, a) by {
        lemma_before_asymmetric(a, b, r);
    }
    assert forall|a: Match, b: Match, c: Match| !#[trigger] lt(b, a) && !#[trigger] lt(
        c,
        b,
    ) implies !lt(c, a) by {
        lemma_not_before_transitive(a, b, c, r);
    }
}

/// Ranking orders: in `ranked(s)` no match ranks before an earlier one, and
/// `ranked(s)` holds the matches of `s`, each as often as `s` does.
pub proof fn lemma_ranked_in_order(s: Seq<Match>, r: Ranking)
    ensures
        ranked(s, r).len() == s.len(),
        ranked(s, r).to_multiset() == s.to_multiset(),
        forall|i: int, j: int|
            0 <= i <= j < s.len() ==> !before(#[trigger] ranked(s, r)[j], #[trigger] ranked(s, r)[i], r),
{
    lemma_rank_order_is_order(r);
    lemma_sorted_in_order(s, rank_order(r));
    assert forall|i: int, j: int| 0 <= i <= j < s.len() implies !before(
        #[trigger] ranked(s, r)[j],
        #[trigger] ranked(s, r)[i],
        r,
    ) by {
        lemma_in_order_pairwise(ranked(s, r), rank_order(r), i, j);
    }
}

/// Ranking is deterministic and idempotent: ranking what was ranked under
/// the same query, scope, context and time changes nothing.
pub proof fn lemma_ranked_idempotent(s: Seq<Match>, r: Ranking)
    ensures
        ranked(ranked(s, r), r) == ranked(s, r),
{
    lemma_rank_order_is_order(r);
    lemma_sorted_idempotent(s, rank_order(r));
}

/// Ranking is stable: matches that already stand in rank order stay where
/// they are.
pub proof fn lemma_ranked_is_stable(s: Seq<Match>, r: Ranking)
    requires
        forall|i: int| 0 <= i < s.len() - 1 ==> !before(#[trigger] s[i + 1], s[i], r),
    ensures
        ranked(s, r) == s,
{
    lemma_sorted_fixes_ordered(s, rank_order(r));
}

/// What ranking compares of one match.
pub struct RankKey {
    pub score: i32,
    pub path: Vec<u32>,
    pub line: u32,
}

impl RankKey {
    /// Whether this key is the key of `m` under `r`.
    pub open spec fn is_key_of(&self, m: Match, r: Ranking) -> bool {
        &&& self.score == score_of(m, r)
        &&& ints(self.path@) == path_key(m.path@)
        &&& self.line == m.line
    }
}

/// Whether the match with key `a` ranks before the match with key `b`.
fn key_before(
    a: &RankKey,
    b: &RankKey,
    Ghost(ma): Ghost<Match>,
    Ghost(mb): Ghost<Match>,
    Ghost(r): Ghost<Ranking>,
) -> (res: bool)
    requires
        a.is_key_of(ma, r),
        b.is_key_of(mb, r),
    ensures
        res == before(ma, mb, r),
{
    if a.score != b.score {
        return a.score > b.score;
    }
    if key_less(&a.path, &b.path) {
        return true;
    }
    key_equal(&a.path, &b.path) && a.line < b.line
}

/// Sorts matches into ranked order: by score, highest first, then by path,
/// then by line. The same inputs always give the same order.
pub fn sort(matches: &mut Vec<Match>, query: &str, scope: &str, context: Option<&str>, workspace: &Workspace)
    ensures
        final(matches)@ == ranked(
            old(matches)@,
            ranking_of(query@, scope@, opt_view(context), *workspace),
        ),
{
    let prepared = prepare(context, workspace);
    let ghost r = ranking_of(query@, scope@, opt_view(context), *workspace);
    assert(r == prepared.ranking(query@, scope@, opt_view(context)));
    let n = matches.len();
    let mut keys: Vec<RankKey> = Vec::new();
    let mut k: usize = 0;
    while k < n
        invariant
            k <= n,
            n == matches@.len(),
            matches@ == old(matches)@,
            keys@.len() == k,
            prepared.stands_for(opt_view(context)),
            r == prepared.ranking(query@, scope@, opt_view(context)),
            forall|j: int| 0 <= j < k ==> (#[trigger] keys@[j]).is_key_of(matches@[j], r),
        decreases n - k,
    {
        let m = &matches[k];
        let s = score(m, query, scope, context, &prepared);
        let path = path_sort_key(m.path.as_str());
        keys.push(RankKey { score: s, path, line: m.line });
        k += 1;
    }
    let mut i: usize = 0;
    assert(matches@.take(0) =~= Seq::<Match>::empty());
    assert(old(matches)@.take(0) =~= Seq::<Match>::empty());
    assert(matches@.skip(0) =~= old(matches)@.skip(0));
    while i < n
        invariant
            i <= n,
            n == matches@.len(),
            n == old(matches)@.len(),
            keys@.len() == n,
            forall|j: int| 0 <= j < n ==> (#[trigger] keys@[j]).is_key_of(matches@[j], r),
            matches@.take(i as int) == ranked(old(matches)@.take(i as int), r),
            matches@.skip(i as int) == old(matches)@.skip(i as int),
        decreases n - i,
    {
        let ghost start = matches@;
        let ghost start_keys = keys@;
        let ghost t = start.take(i as int);
        let x = matches.remove(i);
        let kx = keys.remove(i);
        assert(x == start[i as int]);
        assert(x == old(matches)@.skip(i as int)[0]);
        assert(kx.is_key_of(x, r));
        assert(forall|j: int| 0 <= j < i ==> matches@[j] == t[j]);
        let mut p: usize = i;
        while p > 0 && key_before(&kx, &keys[p - 1], Ghost(x), Ghost(matches@[p - 1]), Ghost(r))
            invariant
                p <= i,
                i < n,
                matches@.len() == n - 1,
                keys@.len() == n - 1,
                kx.is_key_of(x, r),
                forall|j: int| 0 <= j < n - 1 ==> (#[trigger] keys@[j]).is_key_of(matches@[j], r),
                forall|j: int| 0 <= j < i ==> matches@[j] == t[j],
                t.len() == i,
                forall|j: int| p <= j < i ==> before(x, #[trigger] t[j], r),
            decreases p,
        {
            p -= 1;
        }
        let ghost removed = matches@;
        let ghost removed_keys = keys@;
        matches.insert(p, x);
        keys.insert(p, kx);
        proof {
            assert(old(matches)@.take(i + 1).drop_last() =~= old(matches)@.take(i as int));
            assert(old(matches)@.take(i + 1).last() == x);
            assert(sorted(old(matches)@.take(i + 1), rank_order(r)) == insert_sorted(
                sorted(old(matches)@.take(i + 1).drop_last(), rank_order(r)),
                old(matches)@.take(i + 1).last(),
                rank_order(r),
            ));
            lemma_insert_position(t, x, rank_order(r), p as int);
            assert(matches@.take(i + 1) =~= t.take(p as int).push(x) + t.skip(p as int));
            assert(removed =~= start.take(i as int) + start.skip(i + 1));
            assert(matches@ =~= removed.take(p as int).push(x) + removed.skip(p as int));
            assert forall|j: int| i + 1 <= j < n implies matches@[j] == start[j] by {
                assert(matches@[j] == removed[j - 1]);
                assert(removed[j - 1] == start.skip(i + 1)[j - 1 - i]);
            }
            let ghost tail_new = matches@.skip(i + 1);
            let ghost tail_old = old(matches)@.skip(i + 1);
            assert forall|j: int| 0 <= j < n - (i + 1) implies #[trigger] tail_new[j]
                == tail_old[j] by {
                assert(tail_new[j] == matches@[j + i + 1]);
                assert(start[j + i + 1] == start.skip(i as int)[j + 1]);
            }
            assert(matches@.skip(i + 1) =~= old(matches)@.skip(i + 1));
            assert forall|j: int| 0 <= j < n implies (#[trigger] keys@[j]).is_key_of(
                matches@[j],
                r,
            ) by {
                if j < p {
                    assert(keys@[j] == removed_keys[j]);
                    assert(matches@[j] == removed[j]);
                } else if j > p {
                    assert(keys@[j] == removed_keys[j - 1]);
                    assert(matches@[j] == removed[j - 1]);
                }
            }
        }
        i += 1;
    }
    assert(matches@.take(n as int) =~= matches@);
    assert(old(matches)@.take(n as int) =~= old(matches)@);
}

} // verus!
