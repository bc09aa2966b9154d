//! Faceting: a large set of matches split into five ordered groups.

use vstd::prelude::*;

use crate::search::package::{
    known_dirs, package_root, package_root_of, parse_dirs, parsed_dirs, same_dir,
};
use crate::text::{contains, contains_sub, texts, to_chars};
use crate::types::Match;

verus! {

/// The five groups, in the order in which they are shown.
#[derive(Clone, Copy, Debug, PartialEq, Eq, Structural)]
pub enum Facet {
    /// Definitions that are no implementation of a trait or interface.
    Definitions,
    /// Definitions that implement a trait or interface for a type.
    Implementations,
    /// Usages in test files or on lines with a test marker.
    Tests,
    /// Other usages in the package of the primary definition.
    UsagesLocal,
    /// All other usages.
    UsagesCross,
}

/// Matches grouped by facet. Each group keeps the order of the ranking.
pub struct FacetedResult {
    pub definitions: Vec<Match>,
    pub implementations: Vec<Match>,
    pub tests: Vec<Match>,
    pub usages_local: Vec<Match>,
    pub usages_cross: Vec<Match>,
}

/// Whether a path looks like a test file's.
pub open spec fn test_path(path: Seq<char>) -> bool {
    contains_sub(path, "_test."@) || contains_sub(path, "/test/"@) || contains_sub(path, "/tests/"@)
        || contains_sub(path, "_spec."@) || contains_sub(path, "/spec/"@)
}

/// Whether a line carries a test marker.
pub open spec fn test_text(text: Seq<char>) -> bool {
    contains_sub(text, "#[test]"@) || contains_sub(text, "#[cfg(test)]"@) || contains_sub(
        text,
        "@Test"@,
    ) || contains_sub(text, "def test_"@) || contains_sub(text, "it(\""@) || contains_sub(
        text,
        "it('"@,
    ) || contains_sub(text, "describe(\""@) || contains_sub(text, "describe('"@) || contains_sub(
        text,
        "func Test"@,
    )
}

/// Whether a match belongs to a test: by its path or by its line.
pub open spec fn test_match(m: Match) -> bool {
    test_path(m.path@) || test_text(m.text@)
}

/// Whether a match is in a test file or on a line with a test marker.
pub fn is_test_match(m: &Match) -> (b: bool)
    ensures
        b == test_match(*m),
{
    let path = to_chars(m.path.as_str());
    if contains(&path, "_test.") || contains(&path, "/test/") || contains(&path, "/tests/")
        || contains(&path, "_spec.") || contains(&path, "/spec/") {
        return true;
    }
    let text = to_chars(m.text.as_str());
    contains(&text, "#[test]") || contains(&text, "#[cfg(test)]") || contains(&text, "@Test")
        || contains(&text, "def test_") || contains(&text, "it(\"") || contains(&text, "it('")
        || contains(&text, "describe(\"") || contains(&text, "describe('") || contains(
        &text,
        "func Test",
    )
}

/// Whether the file at `path` lies in the package with root `primary`.
pub open spec fn same_package(path: Seq<char>, primary: Option<Seq<Seq<char>>>, known: Set<
    Seq<Seq<char>>,
>) -> bool {
    primary.is_some() && package_root_of(path, known) == primary
}

/// Whether the file at `path` lies in the package of the primary definition.
pub fn is_same_package(
    path: &str,
    primary: &Option<Vec<Vec<char>>>,
    known: &Vec<Vec<Vec<char>>>,
) -> (b: bool)
    ensures
        b == (primary.is_some() && package_root_of(path@, known_dirs(known@)) == Some(
            texts(primary.unwrap()@),
        )),
{
    if primary.is_none() {
        return false;
    }
    let found = package_root(path, known);
    same_dir(&found, primary)
}

/// The index of the first definition among `s`, or `s.len()` if there is none.
pub open spec fn first_definition(s: Seq<Match>) -> int
    decreases s.len(),
{
    if s.len() == 0 || s[0].is_definition {
        0
    } else {
        1 + first_definition(s.drop_first())
    }
}

/// The package root of the primary definition: the first definition among
/// the matches.
pub open spec fn primary_package(s: Seq<Match>, known: Set<Seq<Seq<char>>>) -> Option<
    Seq<Seq<char>>,
> {
    let k = first_definition(s);
    if 0 <= k < s.len() {
        package_root_of(s[k].path@, known)
    } else {
        None
    }
}

/// The facet of one match.
pub open spec fn facet_of(m: Match, primary: Option<Seq<Seq<char>>>, known: Set<Seq<Seq<char>>>) -> Facet {
    if m.is_definition && m.impl_target.is_some() {
        Facet::Implementations
    } else if m.is_definition {
        Facet::Definitions
    } else if test_match(m) {
        Facet::Tests
    } else if same_package(m.path@, primary, known) {
        Facet::UsagesLocal
    } else {
        Facet::UsagesCross
    }
}

/// The matches of `s` that fall into `facet`, in the order of `s`.
pub open spec fn in_facet(
    s: Seq<Match>,
    facet: Facet,
    primary: Option<Seq<Seq<char>>>,
    known: Set<Seq<Seq<char>>>,
) -> Seq<Match>
    decreases s.len(),
{
    if s.len() == 0 {
        Seq::empty()
    } else if facet_of(s.last(), primary, known) == facet {
        in_facet(s.drop_last(), facet, primary, known).push(s.last())
    } else {
        in_facet(s.drop_last(), facet, primary, known)
    }
}

/// The five groups partition the matches: every match is in exactly one.
pub proof fn lemma_facets_partition(
    s: Seq<Match>,
    primary: Option<Seq<Seq<char>>>,
    known: Set<Seq<Seq<char>>>,
)
    ensures
        in_facet(s, Facet::Definitions, primary, known).len() + in_facet(
            s,
            Facet::Implementations,
            primary,
            known,
        ).len() + in_facet(s, Facet::Tests, primary, known).len() + in_facet(
            s,
            Facet::UsagesLocal,
            primary,
            known,
        ).len() + in_facet(s, Facet::UsagesCross, primary, known).len() == s.len(),
    decreases s.len(),
{
    if s.len() > 0 {
        lemma_facets_partition(s.drop_last(), primary, known);
    }
}

/// The first definition among `matches`, if any.
fn find_first_definition(matches: &Vec<Match>) -> (r: Option<usize>)
    ensures
        match r {
            Some(k) => k < matches@.len() && first_definition(matches@) == k,
            None => first_definition(matches@) >= matches@.len(),
        },
{
    let mut i: usize = 0;
    assert(matches@.skip(0) =~= matches@);
    while i < matches.len()
        invariant
            i <= matches.len(),
            first_definition(matches@) == i + first_definition(matches@.skip(i as int)),
        decreases matches.len() - i,
    {
        if matches[i].is_definition {
            return Some(i);
        }
        assert(matches@.skip(i as int).drop_first() =~= matches@.skip(i + 1));
        i += 1;
    }
    None
}

/// Groups matches into facets by kind of definition, test status and package.
///
/// `manifest_dirs` are the directories that hold a package manifest.
pub fn facet_matches(matches: Vec<Match>, manifest_dirs: &Vec<String>) -> (result: FacetedResult)
    ensures
        ({
            let known = parsed_dirs(manifest_dirs@);
            let primary = primary_package(matches@, known);
            &&& result.definitions@ == in_facet(matches@, Facet::Definitions, primary, known)
            &&& result.implementations@ == in_facet(
                matches@,
                Facet::Implementations,
                primary,
                known,
            )
            &&& result.tests@ == in_facet(matches@, Facet::Tests, primary, known)
            &&& result.usages_local@ == in_facet(matches@, Facet::UsagesLocal, primary, known)
            &&& result.usages_cross@ == in_facet(matches@, Facet::UsagesCross, primary, known)
        }),
{
    let known_vec = parse_dirs(manifest_dirs);
    let ghost known = parsed_dirs(manifest_dirs@);
    let ghost primary = primary_package(matches@, known);
    let primary_pkg: Option<Vec<Vec<char>>> = match find_first_definition(&matches) {
        Some(k) => package_root(matches[k].path.as_str(), &known_vec),
        None => None,
    };
    assert(match primary_pkg {
        Some(p) => primary == Some(texts(p@)),
        None => primary.is_none(),
    });
    let mut definitions: Vec<Match> = Vec::new();
    let mut implementations: Vec<Match> = Vec::new();
    let mut tests: Vec<Match> = Vec::new();
    let mut usages_local: Vec<Match> = Vec::new();
    let mut usages_cross: Vec<Match> = Vec::new();
    let ghost all = matches@;
    let mut rest = matches;
    let n = rest.len();
    let mut i: usize = 0;
    assert(all.take(0) =~= Seq::<Match>::empty());
    assert(all.skip(0) =~= all);
    while i < n
        invariant
            i <= n,
            n == all.len(),
            rest@ == all.skip(i as int),
            known == known_dirs(known_vec@),
            match primary_pkg {
                Some(p) => primary == Some(texts(p@)),
                None => primary.is_none(),
            },
            definitions@ == in_facet(all.take(i as int), Facet::Definitions, primary, known),
            implementations@ == in_facet(all.take(i as int), Facet::Implementations, primary, known),
            tests@ == in_facet(all.take(i as int), Facet::Tests, primary, known),
            usages_local@ == in_facet(all.take(i as int), Facet::UsagesLocal, primary, known),
            usages_cross@ == in_facet(all.take(i as int), Facet::UsagesCross, primary, known),
        decreases n - i,
    {
        let m = rest.remove(0);
        proof {
            assert(m == all[i as int]);
            assert(rest@ =~= all.skip(i + 1));
            assert(all.take(i + 1).drop_last() =~= all.take(i as int));
            assert(all.take(i + 1).last() == m);
        }
        if m.is_definition && m.impl_target.is_some() {
            implementations.push(m);
        } else if m.is_definition {
            definitions.push(m);
        } else if is_test_match(&m) {
            tests.push(m);
        } else if is_same_package(m.path.as_str(), &primary_pkg, &known_vec) {
            usages_local.push(m);
        } else {
            usages_cross.push(m);
        }
        i += 1;
    }
    assert(all.take(n as int) =~= all);
    FacetedResult { definitions, implementations, tests, usages_local, usages_cross }
}

} // verus!
