//! Paths as text: `/`-separated components, file names, extensions.
//!
//! A path is a string. Its components are its non-empty pieces between
//! slashes, without the `.` pieces; a leading `/` is a component of its own,
//! and so is a leading `.`.

use vstd::prelude::*;

use crate::text::{find_char, push_all, slice_chars, texts, to_chars};

verus! {

// ---------------------------------------------------------------------------
// Pieces
// ---------------------------------------------------------------------------

/// The index of the first `sep` in `s`, or `s.len()` if there is none.
pub open spec fn first_index(s: Seq<char>, sep: char) -> int
    decreases s.len(),
{
    if s.len() == 0 || s[0] == sep {
        0
    } else {
        1 + first_index(s.drop_first(), sep)
    }
}

/// `first_index` is the least index that holds `sep`.
pub proof fn lemma_first_index(s: Seq<char>, sep: char, k: int)
    requires
        0 <= k <= s.len(),
        forall|j: int| 0 <= j < k ==> s[j] != sep,
        k == s.len() || s[k] == sep,
    ensures
        first_index(s, sep) == k,
    decreases s.len(),
{
    if s.len() == 0 || s[0] == sep {
    } else {
        lemma_first_index(s.drop_first(), sep, k - 1);
    }
}

/// The pieces of `s` between occurrences of `sep`; there is always one more
/// piece than there are separators, and pieces may be empty.
pub open spec fn pieces(s: Seq<char>, sep: char) -> Seq<Seq<char>>
    decreases s.len(),
{
    let k = first_index(s, sep);
    if k < 0 || k >= s.len() {
        seq![s]
    } else {
        seq![s.take(k)] + pieces(s.skip(k + 1), sep)
    }
}

/// Splits `text` at every `sep`.
pub fn split_on(text: &Vec<char>, sep: char) -> (ps: Vec<Vec<char>>)
    ensures
        texts(ps@) == pieces(text@, sep),
        ps@.len() >= 1,
{
    let mut ps: Vec<Vec<char>> = Vec::new();
    let mut pos: usize = 0;
    assert(text@.skip(0) =~= text@);
    assert(texts(ps@) + pieces(text@.skip(0), sep) =~= pieces(text@, sep));
    loop
        invariant_except_break
            pos <= text.len(),
            pieces(text@, sep) == texts(ps@) + pieces(text@.skip(pos as int), sep),
        ensures
            texts(ps@) == pieces(text@, sep),
            ps@.len() >= 1,
        decreases text.len() - pos,
    {
        let ghost rest = text@.skip(pos as int);
        let ghost before = texts(ps@);
        match find_char(text, sep, pos) {
            Some(at) => {
                let piece = slice_chars(text, pos, at);
                proof {
                    lemma_first_index(rest, sep, at - pos);
                    assert(rest.take(at - pos) =~= piece@);
                    assert(rest.skip(at - pos + 1) =~= text@.skip(at + 1));
                }
                ps.push(piece);
                pos = at + 1;
                assert(texts(ps@) =~= before.push(piece@));
                assert(before.push(piece@) + pieces(text@.skip(pos as int), sep) =~= before + (
                seq![piece@] + pieces(text@.skip(pos as int), sep)));
            },
            None => {
                let piece = slice_chars(text, pos, text.len());
                proof {
                    lemma_first_index(rest, sep, rest.len() as int);
                    assert(rest =~= piece@);
                }
                ps.push(piece);
                assert(texts(ps@) =~= before.push(piece@));
                assert(before.push(piece@) =~= before + seq![piece@]);
                break;
            },
        }
    }
    ps
}

// ---------------------------------------------------------------------------
// Components
// ---------------------------------------------------------------------------

/// The root component.
pub open spec fn root() -> Seq<char> {
    seq!['/']
}

/// The current-directory component.
pub open spec fn dot() -> Seq<char> {
    seq!['.']
}

/// The parent-directory component.
pub open spec fn dotdot() -> Seq<char> {
    seq!['.', '.']
}

/// Whether a piece counts as a component: it is neither empty nor `.`.
pub open spec fn is_named(piece: Seq<char>) -> bool {
    piece.len() > 0 && piece != dot()
}

/// The pieces that count as components, in order.
pub open spec fn named(ps: Seq<Seq<char>>) -> Seq<Seq<char>>
    decreases ps.len(),
{
    if ps.len() == 0 {
        Seq::empty()
    } else if is_named(ps.last()) {
        named(ps.drop_last()).push(ps.last())
    } else {
        named(ps.drop_last())
    }
}

/// The components of a path.
pub open spec fn components(path: Seq<char>) -> Seq<Seq<char>> {
    let ps = pieces(path, '/');
    if path.len() > 0 && path[0] == '/' {
        seq![root()] + named(ps)
    } else if ps[0] == dot() {
        seq![dot()] + named(ps)
    } else {
        named(ps)
    }
}

fn is_dot_piece(p: &Vec<char>) -> (b: bool)
    ensures
        b == (p@ == dot()),
{
    let b = p.len() == 1 && p[0] == '.';
    proof {
        if b {
            assert(p@ =~= dot());
        }
    }
    b
}

fn is_dotdot_piece(p: &Vec<char>) -> (b: bool)
    ensures
        b == (p@ == dotdot()),
{
    let b = p.len() == 2 && p[0] == '.' && p[1] == '.';
    proof {
        if b {
            assert(p@ =~= dotdot());
        }
    }
    b
}

fn is_root_piece(p: &Vec<char>) -> (b: bool)
    ensures
        b == (p@ == root()),
{
    let b = p.len() == 1 && p[0] == '/';
    proof {
        if b {
            assert(p@ =~= root());
        }
    }
    b
}

/// The components of `path`.
pub fn chars_components(path: &Vec<char>) -> (cs: Vec<Vec<char>>)
    ensures
        texts(cs@) == components(path@),
{
    let ps = split_on(path, '/');
    let mut cs: Vec<Vec<char>> = Vec::new();
    let ghost lead: Seq<Seq<char>> = Seq::empty();
    if path.len() > 0 && path[0] == '/' {
        let mut r: Vec<char> = Vec::new();
        r.push('/');
        assert(r@ =~= root());
        cs.push(r);
        proof {
            lead = seq![root()];
        }
    } else if is_dot_piece(&ps[0]) {
        let mut r: Vec<char> = Vec::new();
        r.push('.');
        assert(r@ =~= dot());
        cs.push(r);
        proof {
            lead = seq![dot()];
        }
    }
    assert(texts(ps@).take(0) =~= Seq::<Seq<char>>::empty());
    assert(texts(cs@) =~= lead + named(texts(ps@).take(0)));
    let mut i: usize = 0;
    while i < ps.len()
        invariant
            i <= ps.len(),
            texts(cs@) == lead + named(texts(ps@).take(i as int)),
        decreases ps.len() - i,
    {
        let ghost before = texts(cs@);
        let ghost all = texts(ps@);
        let p = &ps[i];
        proof {
            assert(all.take(i + 1).drop_last() =~= all.take(i as int));
            assert(all.take(i + 1).last() == p@);
        }
        if p.len() > 0 && !is_dot_piece(p) {
            let copy = slice_chars(p, 0, p.len());
            assert(copy@ =~= p@);
            cs.push(copy);
            assert(texts(cs@) =~= before.push(p@));
            assert(before.push(p@) =~= lead + named(all.take(i as int)).push(p@));
        }
        i += 1;
    }
    assert(texts(ps@).take(ps.len() as int) =~= texts(ps@));
    cs
}

/// The components of `path`.
pub fn path_components(path: &str) -> (cs: Vec<Vec<char>>)
    ensures
        texts(cs@) == components(path@),
{
    let chars = to_chars(path);
    chars_components(&chars)
}

/// Whether a component is an ordinary name: not the root, `.` or `..`.
pub open spec fn is_normal(c: Seq<char>) -> bool {
    c != root() && c != dot() && c != dotdot()
}

/// Executable form of [`is_normal`].
pub fn is_normal_component(c: &Vec<char>) -> (b: bool)
    ensures
        b == is_normal(c@),
{
    !is_root_piece(c) && !is_dot_piece(c) && !is_dotdot_piece(c)
}

// ---------------------------------------------------------------------------
// File name, stem and extension
// ---------------------------------------------------------------------------

/// The final component of a path, if it is an ordinary name.
pub open spec fn file_name(path: Seq<char>) -> Option<Seq<char>> {
    let cs = components(path);
    if cs.len() > 0 && is_normal(cs.last()) {
        Some(cs.last())
    } else {
        None
    }
}

/// The index of the last `.` in `name`, or `-1` if there is none.
pub open spec fn last_dot(name: Seq<char>) -> int
    decreases name.len(),
{
    if name.len() == 0 {
        -1
    } else if name.last() == '.' {
        name.len() - 1
    } else {
        last_dot(name.drop_last())
    }
}

/// The extension of a file name: what follows its last `.`, unless the name
/// has no `.` or only begins with one.
pub open spec fn name_extension(name: Seq<char>) -> Option<Seq<char>> {
    let d = last_dot(name);
    if d <= 0 {
        None
    } else {
        Some(name.skip(d + 1))
    }
}

/// The stem of a file name: what precedes its last `.`, or the whole name if
/// it has no `.` or only begins with one.
pub open spec fn name_stem(name: Seq<char>) -> Seq<char> {
    let d = last_dot(name);
    if d <= 0 {
        name
    } else {
        name.take(d)
    }
}

/// The extension of the file that a path names.
pub open spec fn extension(path: Seq<char>) -> Option<Seq<char>> {
    match file_name(path) {
        Some(name) => name_extension(name),
        None => None,
    }
}

/// The stem of the file that a path names.
pub open spec fn file_stem(path: Seq<char>) -> Option<Seq<char>> {
    match file_name(path) {
        Some(name) => Some(name_stem(name)),
        None => None,
    }
}

/// The final component of `path`, if it is an ordinary name.
pub fn path_file_name(path: &str) -> (r: Option<Vec<char>>)
    ensures
        match r {
            Some(name) => file_name(path@) == Some(name@),
            None => file_name(path@).is_none(),
        },
{
    let mut cs = path_components(path);
    let ghost all = texts(cs@);
    match cs.pop() {
        Some(last) => {
            assert(all.last() == last@);
            if is_normal_component(&last) {
                Some(last)
            } else {
                None
            }
        },
        None => None,
    }
}

/// The index of the last `.` in `name`, if any.
fn find_last_dot(name: &Vec<char>) -> (r: Option<usize>)
    ensures
        match r {
            Some(d) => d < name.len() && last_dot(name@) == d,
            None => last_dot(name@) == -1,
        },
{
    let mut end: usize = name.len();
    assert(name@.take(end as int) =~= name@);
    while end > 0
        invariant
            end <= name.len(),
            last_dot(name@) == last_dot(name@.take(end as int)),
        decreases end,
    {
        if name[end - 1] == '.' {
            return Some(end - 1);
        }
        assert(name@.take(end as int).drop_last() =~= name@.take(end - 1));
        end -= 1;
    }
    None
}

/// The extension of the file that `path` names.
pub fn path_extension(path: &str) -> (r: Option<Vec<char>>)
    ensures
        match r {
            Some(ext) => extension(path@) == Some(ext@),
            None => extension(path@).is_none(),
        },
{
    match path_file_name(path) {
        Some(name) => match find_last_dot(&name) {
            Some(d) => {
                if d == 0 {
                    None
                } else {
                    let ext = slice_chars(&name, d + 1, name.len());
                    assert(ext@ =~= name@.skip(d + 1));
                    Some(ext)
                }
            },
            None => None,
        },
        None => None,
    }
}

/// The stem of the file that `path` names.
pub fn path_file_stem(path: &str) -> (r: Option<Vec<char>>)
    ensures
        match r {
            Some(stem) => file_stem(path@) == Some(stem@),
            None => file_stem(path@).is_none(),
        },
{
    match path_file_name(path) {
        Some(name) => match find_last_dot(&name) {
            Some(d) => {
                if d == 0 {
                    Some(name)
                } else {
                    let stem = slice_chars(&name, 0, d);
                    assert(stem@ =~= name@.take(d as int));
                    Some(stem)
                }
            },
            None => Some(name),
        },
        None => None,
    }
}

// ---------------------------------------------------------------------------
// Prefixes
// ---------------------------------------------------------------------------

/// Whether `base` is a prefix of `path`, component by component.
pub open spec fn is_under(path: Seq<char>, base: Seq<char>) -> bool {
    components(base).is_prefix_of(components(path))
}

/// The number of components of `path` below `scope`; all of them if `path` is
/// not under `scope`.
pub open spec fn depth_below(path: Seq<char>, scope: Seq<char>) -> nat {
    if is_under(path, scope) {
        (components(path).len() - components(scope).len()) as nat
    } else {
        components(path).len()
    }
}

/// Whether the first `n` components of `a` and `b` agree.
fn same_prefix(a: &Vec<Vec<char>>, b: &Vec<Vec<char>>, n: usize) -> (r: bool)
    requires
        n <= a.len(),
        n <= b.len(),
    ensures
        r == (texts(a@).take(n as int) == texts(b@).take(n as int)),
{
    let mut i: usize = 0;
    while i < n
        invariant
            i <= n,
            n <= a.len(),
            n <= b.len(),
            texts(a@).take(i as int) == texts(b@).take(i as int),
        decreases n - i,
    {
        if !crate::text::chars_eq(&a[i], &b[i]) {
            assert(texts(a@).take(n as int)[i as int] == a@[i as int]@);
            assert(texts(b@).take(n as int)[i as int] == b@[i as int]@);
            return false;
        }
        i += 1;
        assert(texts(a@).take(i as int) =~= texts(a@).take(i - 1).push(a@[i - 1]@));
        assert(texts(b@).take(i as int) =~= texts(b@).take(i - 1).push(b@[i - 1]@));
    }
    true
}

/// Whether `path` lies under `base`, component by component.
pub fn path_is_under(path: &str, base: &str) -> (r: bool)
    ensures
        r == is_under(path@, base@),
{
    let p = path_components(path);
    let b = path_components(base);
    if b.len() > p.len() {
        return false;
    }
    let r = same_prefix(&p, &b, b.len());
    proof {
        assert(texts(b@).take(b.len() as int) =~= texts(b@));
        assert(texts(p@).take(b.len() as int) =~= texts(p@).subrange(0, b.len() as int));
    }
    r
}

/// The number of components of `path` below `scope`.
pub fn path_depth_below(path: &str, scope: &str) -> (d: usize)
    ensures
        d == depth_below(path@, scope@),
{
    let p = path_components(path);
    let b = path_components(scope);
    if b.len() > p.len() {
        return p.len();
    }
    let r = same_prefix(&p, &b, b.len());
    proof {
        assert(texts(b@).take(b.len() as int) =~= texts(b@));
        assert(texts(p@).take(b.len() as int) =~= texts(p@).subrange(0, b.len() as int));
    }
    if r {
        p.len() - b.len()
    } else {
        p.len()
    }
}

/// The components of the directory that holds `path`: all but the last
/// component. There is none if `path` has no component or is the root.
pub open spec fn parent(path: Seq<char>) -> Option<Seq<Seq<char>>> {
    let cs = components(path);
    if cs.len() == 0 || cs.last() == root() {
        None
    } else {
        Some(cs.drop_last())
    }
}

/// The components of the directory that holds `path`.
pub fn path_parent(path: &str) -> (r: Option<Vec<Vec<char>>>)
    ensures
        match r {
            Some(dir) => parent(path@) == Some(texts(dir@)),
            None => parent(path@).is_none(),
        },
{
    let mut cs = path_components(path);
    let ghost all = texts(cs@);
    match cs.pop() {
        Some(last) => {
            assert(all.last() == last@);
            if is_root_piece(&last) {
                None
            } else {
                assert(texts(cs@) =~= all.drop_last());
                Some(cs)
            }
        },
        None => None,
    }
}

/// Whether two component lists are equal.
pub fn components_eq(a: &Vec<Vec<char>>, b: &Vec<Vec<char>>) -> (r: bool)
    ensures
        r == (texts(a@) == texts(b@)),
{
    if a.len() != b.len() {
        return false;
    }
    let r = same_prefix(a, b, a.len());
    proof {
        assert(texts(a@).take(a.len() as int) =~= texts(a@));
        assert(texts(b@).take(b.len() as int) =~= texts(b@));
    }
    r
}

/// `rel` resolved against `base`: `rel` itself if it is absolute or `base` is
/// empty, else `base`, a slash unless `base` ends in one, and `rel`.
pub open spec fn joined(base: Seq<char>, rel: Seq<char>) -> Seq<char> {
    if (rel.len() > 0 && rel[0] == '/') || base.len() == 0 {
        rel
    } else if base.last() == '/' {
        base + rel
    } else {
        base + seq!['/'] + rel
    }
}

/// Resolves `rel` against `base`.
pub fn join(base: &str, rel: &str) -> (r: String)
    ensures
        r@ == joined(base@, rel@),
{
    let b = to_chars(base);
    let q = to_chars(rel);
    let mut out = String::new();
    if (q.len() > 0 && q[0] == '/') || b.len() == 0 {
        push_all(&mut out, &q);
        assert(Seq::<char>::empty() + q@ =~= q@);
    } else if b[b.len() - 1] == '/' {
        push_all(&mut out, &b);
        push_all(&mut out, &q);
        assert(Seq::<char>::empty() + b@ + q@ =~= b@ + q@);
    } else {
        push_all(&mut out, &b);
        out.push('/');
        push_all(&mut out, &q);
        assert((Seq::<char>::empty() + b@).push('/') + q@ =~= b@ + seq!['/'] + q@);
    }
    out
}

/// Whether two paths have the same components.
pub open spec fn is_same_path(a: Seq<char>, b: Seq<char>) -> bool {
    components(a) == components(b)
}

/// Whether two paths name the same place: they agree component by component.
pub fn same_path(a: &str, b: &str) -> (r: bool)
    ensures
        r == is_same_path(a@, b@),
{
    let x = path_components(a);
    let y = path_components(b);
    components_eq(&x, &y)
}

/// The normal form of a path: its components with one slash between each
/// two, and none behind the root.
pub open spec fn normal_form(path: Seq<char>) -> Seq<char> {
    let cs = components(path);
    if cs.len() > 0 && cs[0] == root() {
        root() + crate::text::join(cs.skip(1), seq!['/'])
    } else {
        crate::text::join(cs, seq!['/'])
    }
}

/// The normal form of `path`. Paths with the same components have the same
/// normal form.
pub fn normalize(path: &str) -> (r: String)
    ensures
        r@ == normal_form(path@),
{
    let cs = path_components(path);
    let ghost all = texts(cs@);
    let mut out = String::new();
    let rooted = cs.len() > 0 && is_root_piece(&cs[0]);
    let first: usize = if rooted {
        out.push('/');
        assert(out@ =~= root());
        1
    } else {
        0
    };
    let ghost head = out@;
    let ghost rest = all.skip(first as int);
    let mut i: usize = first;
    assert(rest.take(0) =~= Seq::<Seq<char>>::empty());
    assert(head + crate::text::join(rest.take(0), seq!['/']) =~= head);
    while i < cs.len()
        invariant
            first <= i <= cs.len(),
            all == texts(cs@),
            rest == all.skip(first as int),
            out@ == head + crate::text::join(rest.take(i - first), seq!['/']),
        decreases cs.len() - i,
    {
        let ghost before = out@;
        if i > first {
            out.push('/');
        }
        push_all(&mut out, &cs[i]);
        i += 1;
        proof {
            let now = rest.take(i - first);
            assert(now.drop_last() =~= rest.take(i - 1 - first));
            assert(now.last() == cs@[i - 1]@);
            if i - first == 1 {
                assert(crate::text::join(now, seq!['/']) =~= cs@[i - 1]@);
            } else {
                assert(crate::text::join(now, seq!['/']) =~= crate::text::join(
                    now.drop_last(),
                    seq!['/'],
                ) + seq!['/'] + now.last());
            }
        }
    }
    assert(rest.take(cs.len() - first) =~= rest);
    assert(all.skip(0) =~= all);
    out
}

} // verus!
