//! Package roots: the nearest directory above a file that holds a manifest.
//!
//! Whether a directory holds a manifest is a fact about the disk. The caller
//! finds it out and hands over the directories that do.

use vstd::prelude::*;

use crate::paths::{components, components_eq, parent, path_components, path_parent, root};
use crate::search::strip::is_word;
use crate::text::{slice_chars, texts};

verus! {

/// Whether a file name marks the directory that holds it as a package root.
pub open spec fn manifest_name(name: Seq<char>) -> bool {
    name == "Cargo.toml"@ || name == "package.json"@ || name == "pyproject.toml"@ || name
        == "setup.py"@ || name == "go.mod"@ || name == "pom.xml"@ || name == "build.gradle"@
}

/// Executable form of [`manifest_name`].
pub fn is_manifest_name(name: &str) -> (b: bool)
    ensures
        b == manifest_name(name@),
{
    let n = crate::text::to_chars(name);
    is_word(&n, "Cargo.toml") || is_word(&n, "package.json") || is_word(&n, "pyproject.toml")
        || is_word(&n, "setup.py") || is_word(&n, "go.mod") || is_word(&n, "pom.xml") || is_word(
        &n,
        "build.gradle",
    )
}

/// The directories, as component lists, that are known to hold a manifest.
pub open spec fn known_dirs(dirs: Seq<Vec<Vec<char>>>) -> Set<Seq<Seq<char>>> {
    Set::new(|d: Seq<Seq<char>>| exists|i: int| 0 <= i < dirs.len() && texts(#[trigger] dirs[i]@) == d)
}

/// The component lists of the directories named by `dirs`.
pub open spec fn parsed_dirs(dirs: Seq<String>) -> Set<Seq<Seq<char>>> {
    Set::new(
        |d: Seq<Seq<char>>| exists|i: int| 0 <= i < dirs.len() && components(#[trigger] dirs[i]@) == d,
    )
}

/// Parses every directory of `dirs` into its components.
pub fn parse_dirs(dirs: &Vec<String>) -> (parsed: Vec<Vec<Vec<char>>>)
    ensures
        known_dirs(parsed@) == parsed_dirs(dirs@),
{
    let mut parsed: Vec<Vec<Vec<char>>> = Vec::new();
    let mut i: usize = 0;
    while i < dirs.len()
        invariant
            i <= dirs.len(),
            parsed@.len() == i,
            forall|j: int| 0 <= j < i ==> texts(#[trigger] parsed@[j]@) == components(dirs@[j]@),
        decreases dirs.len() - i,
    {
        parsed.push(path_components(dirs[i].as_str()));
        i += 1;
    }
    proof {
        assert forall|d: Seq<Seq<char>>| known_dirs(parsed@).contains(d) == parsed_dirs(
            dirs@,
        ).contains(d) by {
            if known_dirs(parsed@).contains(d) {
                let j = choose|j: int| 0 <= j < parsed@.len() && texts(#[trigger] parsed@[j]@) == d;
                assert(components(dirs@[j]@) == d);
            }
            if parsed_dirs(dirs@).contains(d) {
                let j = choose|j: int| 0 <= j < dirs@.len() && components(#[trigger] dirs@[j]@) == d;
                assert(texts(parsed@[j]@) == d);
            }
        }
        assert(known_dirs(parsed@) =~= parsed_dirs(dirs@));
    }
    parsed
}

/// The shortest prefix of `dir` that is still a directory: the root for an
/// absolute path, nothing for a relative one.
pub open spec fn floor_len(dir: Seq<Seq<char>>) -> int {
    if dir.len() > 0 && dir[0] == root() {
        1
    } else {
        0
    }
}

/// The longest prefix of `dir`, of at most `k` components, that is known to
/// hold a manifest.
pub open spec fn nearest_root(dir: Seq<Seq<char>>, known: Set<Seq<Seq<char>>>, k: int) -> Option<
    Seq<Seq<char>>,
>
    decreases k,
{
    if k < floor_len(dir) || k < 0 {
        None
    } else if known.contains(dir.take(k)) {
        Some(dir.take(k))
    } else if k == 0 {
        None
    } else {
        nearest_root(dir, known, k - 1)
    }
}

/// The package root of a directory: the directory itself or the nearest one
/// above it that is known to hold a manifest.
pub open spec fn dir_package_root(dir: Seq<Seq<char>>, known: Set<Seq<Seq<char>>>) -> Option<
    Seq<Seq<char>>,
> {
    nearest_root(dir, known, dir.len() as int)
}

/// The package root of a file: the package root of the directory that holds
/// it.
pub open spec fn package_root_of(path: Seq<char>, known: Set<Seq<Seq<char>>>) -> Option<
    Seq<Seq<char>>,
> {
    match parent(path) {
        Some(dir) => dir_package_root(dir, known),
        None => None,
    }
}

/// Whether the first `k` components of `dir` are one of the known directories.
fn prefix_is_known(dir: &Vec<Vec<char>>, k: usize, known: &Vec<Vec<Vec<char>>>) -> (b: bool)
    requires
        k <= dir.len(),
    ensures
        b == known_dirs(known@).contains(texts(dir@).take(k as int)),
{
    let mut prefix: Vec<Vec<char>> = Vec::new();
    let mut j: usize = 0;
    while j < k
        invariant
            j <= k <= dir.len(),
            texts(prefix@) == texts(dir@).take(j as int),
        decreases k - j,
    {
        let ghost before = texts(prefix@);
        let c = slice_chars(&dir[j], 0, dir[j].len());
        assert(c@ =~= dir@[j as int]@);
        prefix.push(c);
        j += 1;
        assert(texts(prefix@) =~= before.push(dir@[j - 1]@));
        assert(texts(dir@).take(j as int) =~= texts(dir@).take(j - 1).push(dir@[j - 1]@));
    }
    let mut i: usize = 0;
    while i < known.len()
        invariant
            i <= known.len(),
            texts(prefix@) == texts(dir@).take(k as int),
            forall|x: int| 0 <= x < i ==> texts(#[trigger] known@[x]@) != texts(prefix@),
        decreases known.len() - i,
    {
        if components_eq(&known[i], &prefix) {
            assert(texts(known@[i as int]@) == texts(prefix@));
            return true;
        }
        i += 1;
    }
    false
}

/// The package root of the directory `dir`, given as components.
pub fn package_root_of_dir(dir: &Vec<Vec<char>>, known: &Vec<Vec<Vec<char>>>) -> (r: Option<
    Vec<Vec<char>>,
>)
    ensures
        match r {
            Some(found) => dir_package_root(texts(dir@), known_dirs(known@)) == Some(texts(found@)),
            None => dir_package_root(texts(dir@), known_dirs(known@)).is_none(),
        },
{
    let floor: usize = if dir.len() > 0 && dir[0].len() == 1 && dir[0][0] == '/' {
        assert(dir@[0]@ =~= root());
        1
    } else {
        0
    };
    assert(floor == floor_len(texts(dir@)));
    let mut k: usize = dir.len();
    loop
        invariant
            floor <= dir.len(),
            k <= dir.len(),
            floor == floor_len(texts(dir@)),
            dir_package_root(texts(dir@), known_dirs(known@)) == nearest_root(
                texts(dir@),
                known_dirs(known@),
                k as int,
            ),
        decreases k,
    {
        if k < floor {
            return None;
        }
        if prefix_is_known(dir, k, known) {
            let mut found: Vec<Vec<char>> = Vec::new();
            let mut j: usize = 0;
            while j < k
                invariant
                    j <= k <= dir.len(),
                    texts(found@) == texts(dir@).take(j as int),
                decreases k - j,
            {
                let ghost before = texts(found@);
                let c = slice_chars(&dir[j], 0, dir[j].len());
                assert(c@ =~= dir@[j as int]@);
                found.push(c);
                j += 1;
                assert(texts(found@) =~= before.push(dir@[j - 1]@));
                assert(texts(dir@).take(j as int) =~= texts(dir@).take(j - 1).push(dir@[j - 1]@));
            }
            return Some(found);
        }
        if k == 0 {
            return None;
        }
        k -= 1;
    }
}

/// The package root of the file at `path`.
pub fn package_root(path: &str, known: &Vec<Vec<Vec<char>>>) -> (r: Option<Vec<Vec<char>>>)
    ensures
        match r {
            Some(found) => package_root_of(path@, known_dirs(known@)) == Some(texts(found@)),
            None => package_root_of(path@, known_dirs(known@)).is_none(),
        },
{
    match path_parent(path) {
        Some(dir) => package_root_of_dir(&dir, known),
        None => None,
    }
}

/// Whether two optional component lists are both present and equal.
pub fn same_dir(a: &Option<Vec<Vec<char>>>, b: &Option<Vec<Vec<char>>>) -> (r: bool)
    ensures
        r == (a.is_some() && b.is_some() && texts(a.unwrap()@) == texts(b.unwrap()@)),
{
    match a {
        Some(x) => match b {
            Some(y) => components_eq(x, y),
            None => false,
        },
        None => false,
    }
}

} // verus!
