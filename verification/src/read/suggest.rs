//! "Did you mean?" suggestions for paths that do not exist.

use vstd::prelude::*;
use vstd::string::StringSliceAdditionalSpecFns;

use crate::paths::{file_name, join, joined, path_file_name};
use crate::text::string_of;

verus! {

/// The smallest of three numbers.
pub open spec fn min3(a: nat, b: nat, c: nat) -> nat {
    if a <= b && a <= c {
        a
    } else if b <= c {
        b
    } else {
        c
    }
}

/// The Levenshtein distance of two byte strings: the least number of single
/// byte insertions, deletions and substitutions that turns one into the other.
pub open spec fn levenshtein(a: Seq<u8>, b: Seq<u8>) -> nat
    decreases a.len() + b.len(),
{
    if a.len() == 0 {
        b.len()
    } else if b.len() == 0 {
        a.len()
    } else {
        let cost: nat = if a.last() == b.last() {
            0
        } else {
            1
        };
        min3(
            levenshtein(a.drop_last(), b.drop_last()) + cost,
            levenshtein(a.drop_last(), b) + 1,
            levenshtein(a, b.drop_last()) + 1,
        )
    }
}

/// The distance never exceeds the length of the longer string.
pub proof fn lemma_levenshtein_bound(a: Seq<u8>, b: Seq<u8>)
    ensures
        levenshtein(a, b) <= a.len() || levenshtein(a, b) <= b.len(),
    decreases a.len() + b.len(),
{
    if a.len() == 0 || b.len() == 0 {
    } else {
        lemma_levenshtein_bound(a.drop_last(), b.drop_last());
    }
}

/// The distance of a string to itself is zero.
pub proof fn lemma_levenshtein_same(a: Seq<u8>)
    ensures
        levenshtein(a, a) == 0,
    decreases a.len(),
{
    if a.len() > 0 {
        lemma_levenshtein_same(a.drop_last());
    }
}

/// The Levenshtein distance of the UTF-8 bytes of `a` and `b`.
pub fn edit_distance(a: &str, b: &str) -> (d: usize)
    ensures
        d == levenshtein(a.spec_bytes(), b.spec_bytes()),
{
    let a = a.as_bytes();
    let b = b.as_bytes();
    let n = b.len();
    let mut prev: Vec<u128> = Vec::new();
    prev.push(0u128);
    let mut j: usize = 0;
    while j < n
        invariant
            j <= n,
            n == b@.len(),
            prev@.len() == j + 1,
            forall|k: int| 0 <= k <= j ==> prev@[k] == k,
        decreases n - j,
    {
        j += 1;
        prev.push(j as u128);
    }
    assert forall|k: int| 0 <= k <= n implies prev@[k] == levenshtein(a@.take(0), b@.take(k)) by {
        assert(a@.take(0).len() == 0);
    }
    let mut i: usize = 0;
    while i < a.len()
        invariant
            i <= a.len(),
            n == b@.len(),
            prev@.len() == n + 1,
            forall|k: int|
                0 <= k <= n ==> prev@[k] == levenshtein(a@.take(i as int), b@.take(k)),
        decreases a.len() - i,
    {
        let ca = a[i];
        let ghost ai = a@.take(i as int);
        let ghost ai1 = a@.take(i + 1);
        proof {
            assert(ai1.drop_last() =~= ai);
            assert(ai1.last() == ca);
        }
        let mut curr: Vec<u128> = Vec::new();
        curr.push(i as u128 + 1);
        proof {
            assert(b@.take(0).len() == 0);
            assert(levenshtein(ai1, b@.take(0)) == i + 1);
        }
        let mut j: usize = 0;
        while j < n
            invariant
                j <= n,
                i < a.len(),
                n == b@.len(),
                prev@.len() == n + 1,
                curr@.len() == j + 1,
                ai == a@.take(i as int),
                ai1 == a@.take(i + 1),
                ai1.drop_last() == ai,
                ai1.last() == ca,
                forall|k: int| 0 <= k <= n ==> prev@[k] == levenshtein(ai, b@.take(k)),
                forall|k: int| 0 <= k <= j ==> curr@[k] == levenshtein(ai1, b@.take(k)),
            decreases n - j,
        {
            let cb = b[j];
            let cost: u128 = if ca != cb {
                1
            } else {
                0
            };
            proof {
                let bj1 = b@.take(j + 1);
                assert(bj1.drop_last() =~= b@.take(j as int));
                assert(bj1.last() == cb);
                lemma_levenshtein_bound(ai, b@.take(j as int));
                lemma_levenshtein_bound(ai, bj1);
                lemma_levenshtein_bound(ai1, b@.take(j as int));
            }
            let x: u128 = prev[j] + cost;
            let y: u128 = prev[j + 1] + 1;
            let z: u128 = curr[j] + 1;
            let m: u128 = if x <= y && x <= z {
                x
            } else if y <= z {
                y
            } else {
                z
            };
            curr.push(m);
            j += 1;
        }
        prev = curr;
        i += 1;
    }
    proof {
        assert(a@.take(a@.len() as int) =~= a@);
        assert(b@.take(n as int) =~= b@);
        lemma_levenshtein_bound(a@, b@);
    }
    prev[n] as usize
}

/// The distance from `name` to the `k`-th candidate.
pub open spec fn candidate_distance(name: Seq<u8>, candidates: Seq<String>, k: int) -> nat {
    levenshtein(name, vstd::utf8::encode_utf8(candidates[k]@))
}

/// Whether candidate `k` is the suggestion for `name`: it is within distance
/// three, no candidate is nearer, and no earlier candidate is as near.
pub open spec fn is_suggestion(name: Seq<u8>, candidates: Seq<String>, k: int) -> bool {
    &&& 0 <= k < candidates.len()
    &&& candidate_distance(name, candidates, k) <= 3
    &&& forall|j: int|
        0 <= j < candidates.len() ==> candidate_distance(name, candidates, k)
            <= #[trigger] candidate_distance(name, candidates, j)
    &&& forall|j: int|
        0 <= j < k ==> candidate_distance(name, candidates, k) < #[trigger] candidate_distance(
            name,
            candidates,
            j,
        )
}

/// Whether `r` is the right answer for `name` among `candidates`: the
/// suggestion if there is one, else nothing.
pub open spec fn suggestion_for(name: Seq<u8>, candidates: Seq<String>, r: Option<String>) -> bool {
    match r {
        Some(s) => exists|k: int| is_suggestion(name, candidates, k) && s@ == candidates[k]@,
        None => forall|k: int|
            0 <= k < candidates.len() ==> #[trigger] candidate_distance(name, candidates, k) > 3,
    }
}

/// The candidate nearest to `name` by edit distance, if one is within
/// distance three; the first of them if several are equally near.
pub fn suggest_similar(name: &str, candidates: &Vec<String>) -> (r: Option<String>)
    ensures
        suggestion_for(name.spec_bytes(), candidates@, r),
{
    let mut best: Option<(usize, usize)> = None;
    let mut i: usize = 0;
    let ghost nb = name.spec_bytes();
    while i < candidates.len()
        invariant
            i <= candidates.len(),
            nb == name.spec_bytes(),
            match best {
                Some((d, k)) => {
                    &&& k < i
                    &&& d == candidate_distance(nb, candidates@, k as int)
                    &&& d <= 3
                    &&& forall|j: int|
                        0 <= j < i ==> d <= #[trigger] candidate_distance(nb, candidates@, j)
                    &&& forall|j: int|
                        0 <= j < k ==> d < #[trigger] candidate_distance(nb, candidates@, j)
                },
                None => forall|j: int|
                    0 <= j < i ==> #[trigger] candidate_distance(nb, candidates@, j) > 3,
            },
        decreases candidates.len() - i,
    {
        let dist = edit_distance(name, candidates[i].as_str());
        if dist <= 3 {
            match best {
                Some((d, _)) => {
                    if dist < d {
                        best = Some((dist, i));
                    }
                },
                None => {
                    best = Some((dist, i));
                },
            }
        }
        i += 1;
    }
    match best {
        Some((_, k)) => {
            assert(is_suggestion(nb, candidates@, k as int));
            Some(candidates[k].clone())
        },
        None => None,
    }
}

/// The name that a query stands for once it is resolved against `scope`: the
/// file name of the joined path.
pub open spec fn wanted_name(scope: Seq<char>, query: Seq<char>) -> Option<Seq<char>> {
    file_name(joined(scope, query))
}

/// Suggests the entry of a directory that is most similar to the file that
/// `query` names below `scope`.
///
/// `entries` are the names found in the directory that would hold the file.
/// There is no suggestion when the resolved path names no file, or when no
/// entry is within edit distance three of the wanted name.
pub fn suggest_similar_file(scope: &str, query: &str, entries: &Vec<String>) -> (r: Option<String>)
    ensures
        match wanted_name(scope@, query@) {
            None => r.is_none(),
            Some(name) => suggestion_for(vstd::utf8::encode_utf8(name), entries@, r),
        },
{
    let resolved = join(scope, query);
    match path_file_name(resolved.as_str()) {
        Some(name) => {
            let wanted = string_of(&name);
            let wanted_str = wanted.as_str();
            let r = suggest_similar(wanted_str, entries);
            proof {
                assert(wanted_str.spec_bytes() == vstd::utf8::encode_utf8(name@));
                assert(wanted_name(scope@, query@) == Some(name@));
            }
            r
        },
        None => None,
    }
}

} // verus!
