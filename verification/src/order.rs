//! Stable sorting, as mathematics: what it means to put a sequence in order
//! without moving what is already in order.
//!
//! The order is given by a relation `lt`; `lt(a, b)` says that `a` belongs
//! strictly before `b`.

use vstd::prelude::*;

verus! {

/// Whether at most one of two items belongs before the other.
pub open spec fn asymmetric<T>(lt: spec_fn(T, T) -> bool) -> bool {
    forall|a: T, b: T| #[trigger] lt(a, b) ==> !lt(b, a)
}

/// Whether "does not belong after" is transitive.
pub open spec fn negatively_transitive<T>(lt: spec_fn(T, T) -> bool) -> bool {
    forall|a: T, b: T, c: T| !#[trigger] lt(b, a) && !#[trigger] lt(c, b) ==> !lt(c, a)
}

/// `s` with `m` put in behind every item that does not belong after it.
pub open spec fn insert_sorted<T>(s: Seq<T>, m: T, lt: spec_fn(T, T) -> bool) -> Seq<T>
    decreases s.len(),
{
    if s.len() == 0 {
        seq![m]
    } else if lt(m, s.last()) {
        insert_sorted(s.drop_last(), m, lt).push(s.last())
    } else {
        s.push(m)
    }
}

/// The items of `s` in order. Items of which neither belongs before the other
/// keep the order they have in `s`.
pub open spec fn sorted<T>(s: Seq<T>, lt: spec_fn(T, T) -> bool) -> Seq<T>
    decreases s.len(),
{
    if s.len() == 0 {
        Seq::empty()
    } else {
        insert_sorted(sorted(s.drop_last(), lt), s.last(), lt)
    }
}

/// Whether no item of `s` belongs before the one in front of it.
pub open spec fn in_order<T>(s: Seq<T>, lt: spec_fn(T, T) -> bool) -> bool {
    forall|i: int| 0 <= i < s.len() - 1 ==> !lt(#[trigger] s[i + 1], s[i])
}

/// Where `insert_sorted` puts an item: at `p`, if it belongs before everything
/// from `p` on and not before what stands in front of `p`.
pub proof fn lemma_insert_position<T>(s: Seq<T>, m: T, lt: spec_fn(T, T) -> bool, p: int)
    requires
        0 <= p <= s.len(),
        forall|j: int| p <= j < s.len() ==> lt(m, #[trigger] s[j]),
        p > 0 ==> !lt(m, s[p - 1]),
    ensures
        insert_sorted(s, m, lt) == s.take(p).push(m) + s.skip(p),
    decreases s.len() - p,
{
    if s.len() == 0 {
        assert(s.take(0).push(m) + s.skip(0) =~= seq![m]);
    } else if p == s.len() {
        assert(s.take(p).push(m) + s.skip(p) =~= s.push(m));
    } else {
        let t = s.drop_last();
        assert(lt(m, s[s.len() - 1]));
        lemma_insert_position(t, m, lt, p);
        assert((t.take(p).push(m) + t.skip(p)).push(s.last()) =~= s.take(p).push(m) + s.skip(p));
    }
}

/// `insert_sorted` adds exactly one item, and the result ends with the new
/// item or with the old last one.
pub proof fn lemma_insert_shape<T>(s: Seq<T>, m: T, lt: spec_fn(T, T) -> bool)
    ensures
        insert_sorted(s, m, lt).len() == s.len() + 1,
        insert_sorted(s, m, lt).last() == m || (s.len() > 0 && insert_sorted(s, m, lt).last()
            == s.last()),
        insert_sorted(s, m, lt).to_multiset() == s.to_multiset().insert(m),
    decreases s.len(),
{
    broadcast use vstd::seq_lib::to_multiset_build;

    if s.len() == 0 {
        assert(seq![m] =~= s.push(m));
    } else if lt(m, s.last()) {
        lemma_insert_shape(s.drop_last(), m, lt);
        assert(s =~= s.drop_last().push(s.last()));
        assert(s.drop_last().to_multiset().insert(m).insert(s.last())
            =~= s.drop_last().to_multiset().insert(s.last()).insert(m));
    } else {
    }
}

/// Putting an item into a sequence that is in order leaves it in order.
pub proof fn lemma_insert_keeps_order<T>(s: Seq<T>, m: T, lt: spec_fn(T, T) -> bool)
    requires
        asymmetric(lt),
        in_order(s, lt),
    ensures
        in_order(insert_sorted(s, m, lt), lt),
    decreases s.len(),
{
    let out = insert_sorted(s, m, lt);
    if s.len() == 0 {
    } else if lt(m, s.last()) {
        let t = s.drop_last();
        assert(in_order(t, lt)) by {
            assert forall|i: int| 0 <= i < t.len() - 1 implies !lt(#[trigger] t[i + 1], t[i]) by {
                assert(t[i + 1] == s[i + 1]);
            }
        }
        lemma_insert_keeps_order(t, m, lt);
        lemma_insert_shape(t, m, lt);
        let u = insert_sorted(t, m, lt);
        assert forall|i: int| 0 <= i < out.len() - 1 implies !lt(#[trigger] out[i + 1], out[i]) by {
            if i + 1 < u.len() {
                assert(out[i + 1] == u[i + 1]);
                assert(out[i] == u[i]);
            } else {
                assert(out[i + 1] == s.last());
                assert(out[i] == u.last());
                if u.last() != m {
                    assert(u.last() == t.last());
                    assert(t.last() == s[s.len() - 2]);
                    assert(s.last() == s[(s.len() - 2) + 1]);
                }
            }
        }
    } else {
        assert forall|i: int| 0 <= i < out.len() - 1 implies !lt(#[trigger] out[i + 1], out[i]) by {
            if i + 1 < s.len() {
                assert(out[i + 1] == s[i + 1]);
            }
        }
    }
}

/// Sorting gives a sequence in order that holds the same items as often.
pub proof fn lemma_sorted_in_order<T>(s: Seq<T>, lt: spec_fn(T, T) -> bool)
    requires
        asymmetric(lt),
    ensures
        in_order(sorted(s, lt), lt),
        sorted(s, lt).len() == s.len(),
        sorted(s, lt).to_multiset() == s.to_multiset(),
    decreases s.len(),
{
    broadcast use vstd::seq_lib::to_multiset_build;

    if s.len() == 0 {
        assert(sorted(s, lt) =~= s);
    } else {
        lemma_sorted_in_order(s.drop_last(), lt);
        lemma_insert_keeps_order(sorted(s.drop_last(), lt), s.last(), lt);
        lemma_insert_shape(sorted(s.drop_last(), lt), s.last(), lt);
        assert(s =~= s.drop_last().push(s.last()));
    }
}

/// In a sequence in order, no later item belongs before an earlier one.
pub proof fn lemma_in_order_pairwise<T>(s: Seq<T>, lt: spec_fn(T, T) -> bool, i: int, j: int)
    requires
        asymmetric(lt),
        negatively_transitive(lt),
        in_order(s, lt),
        0 <= i <= j < s.len(),
    ensures
        !lt(s[j], s[i]),
    decreases j - i,
{
    if i == j {
        if lt(s[i], s[i]) {
            assert(!lt(s[i], s[i]));
        }
    } else {
        lemma_in_order_pairwise(s, lt, i, j - 1);
        assert(!lt(s[(j - 1) + 1], s[j - 1]));
    }
}

/// Sorting leaves a sequence that is in order as it is.
pub proof fn lemma_sorted_fixes_ordered<T>(s: Seq<T>, lt: spec_fn(T, T) -> bool)
    requires
        in_order(s, lt),
    ensures
        sorted(s, lt) == s,
    decreases s.len(),
{
    if s.len() == 0 {
        assert(sorted(s, lt) =~= s);
    } else {
        let t = s.drop_last();
        assert(in_order(t, lt)) by {
            assert forall|i: int| 0 <= i < t.len() - 1 implies !lt(#[trigger] t[i + 1], t[i]) by {
                assert(t[i + 1] == s[i + 1]);
            }
        }
        lemma_sorted_fixes_ordered(t, lt);
        if t.len() > 0 {
            assert(s.last() == s[(s.len() - 2) + 1]);
            assert(t.last() == s[s.len() - 2]);
        }
        assert(t.push(s.last()) =~= s);
    }
}

/// Sorting is idempotent: sorting a sorted sequence changes nothing.
pub proof fn lemma_sorted_idempotent<T>(s: Seq<T>, lt: spec_fn(T, T) -> bool)
    requires
        asymmetric(lt),
    ensures
        sorted(sorted(s, lt), lt) == sorted(s, lt),
{
    lemma_sorted_in_order(s, lt);
    lemma_sorted_fixes_ordered(sorted(s, lt), lt);
}

// ---------------------------------------------------------------------------
// Lexicographic order
// ---------------------------------------------------------------------------

/// The numbers of a `u32` sequence.
pub open spec fn ints(v: Seq<u32>) -> Seq<int> {
    Seq::new(v.len(), |i: int| v[i] as int)
}

/// Whether `a` comes before `b` in lexicographic order.
pub open spec fn lex_lt(a: Seq<int>, b: Seq<int>) -> bool
    decreases a.len(),
{
    if b.len() == 0 {
        false
    } else if a.len() == 0 {
        true
    } else if a[0] != b[0] {
        a[0] < b[0]
    } else {
        lex_lt(a.drop_first(), b.drop_first())
    }
}

/// Of two sequences, at most one comes before the other, and none before
/// itself.
pub proof fn lemma_lex_asymmetric(a: Seq<int>, b: Seq<int>)
    ensures
        lex_lt(a, b) ==> !lex_lt(b, a),
        a == b ==> !lex_lt(a, b),
    decreases a.len(),
{
    if a.len() > 0 && b.len() > 0 && a[0] == b[0] {
        lemma_lex_asymmetric(a.drop_first(), b.drop_first());
        if a == b {
            assert(a.drop_first() == b.drop_first());
        }
    }
}

/// Two different sequences are ordered one way or the other.
pub proof fn lemma_lex_total(a: Seq<int>, b: Seq<int>)
    ensures
        lex_lt(a, b) || lex_lt(b, a) || a == b,
    decreases a.len(),
{
    if a.len() > 0 && b.len() > 0 && a[0] == b[0] {
        lemma_lex_total(a.drop_first(), b.drop_first());
        if a.drop_first() == b.drop_first() {
            assert(a =~= seq![a[0]] + a.drop_first());
            assert(b =~= seq![b[0]] + b.drop_first());
        }
    } else if a.len() == 0 && b.len() == 0 {
        assert(a =~= b);
    }
}

/// The order is transitive.
pub proof fn lemma_lex_transitive(a: Seq<int>, b: Seq<int>, c: Seq<int>)
    requires
        lex_lt(a, b),
        lex_lt(b, c),
    ensures
        lex_lt(a, c),
    decreases a.len(),
{
    if a.len() > 0 && b.len() > 0 && c.len() > 0 && a[0] == b[0] && b[0] == c[0] {
        lemma_lex_transitive(a.drop_first(), b.drop_first(), c.drop_first());
    }
}

/// Whether key `a` comes before key `b`.
pub fn key_less(a: &Vec<u32>, b: &Vec<u32>) -> (r: bool)
    ensures
        r == lex_lt(ints(a@), ints(b@)),
{
    let mut i: usize = 0;
    assert(ints(a@).skip(0) =~= ints(a@));
    assert(ints(b@).skip(0) =~= ints(b@));
    loop
        invariant
            i <= a.len(),
            i <= b.len(),
            lex_lt(ints(a@), ints(b@)) == lex_lt(ints(a@).skip(i as int), ints(b@).skip(i as int)),
        decreases a.len() - i,
    {
        if i >= b.len() {
            return false;
        }
        if i >= a.len() {
            return true;
        }
        if a[i] != b[i] {
            return a[i] < b[i];
        }
        proof {
            assert(ints(a@).skip(i as int).drop_first() =~= ints(a@).skip(i + 1));
            assert(ints(b@).skip(i as int).drop_first() =~= ints(b@).skip(i + 1));
        }
        i += 1;
    }
}

/// Whether two keys are equal.
pub fn key_equal(a: &Vec<u32>, b: &Vec<u32>) -> (r: bool)
    ensures
        r == (ints(a@) == ints(b@)),
{
    if a.len() != b.len() {
        assert(ints(a@).len() != ints(b@).len());
        return false;
    }
    let mut i: usize = 0;
    while i < a.len()
        invariant
            i <= a.len(),
            a.len() == b.len(),
            forall|j: int| 0 <= j < i ==> a@[j] == b@[j],
        decreases a.len() - i,
    {
        if a[i] != b[i] {
            assert(ints(a@)[i as int] != ints(b@)[i as int]);
            return false;
        }
        i += 1;
    }
    assert(ints(a@) =~= ints(b@));
    true
}

// ---------------------------------------------------------------------------
// Sorting by keys
// ---------------------------------------------------------------------------

/// The order of items by their keys, as a relation.
pub open spec fn by_key<T>(key_of: spec_fn(T) -> Seq<int>) -> spec_fn(T, T) -> bool {
    |a: T, b: T| lex_lt(key_of(a), key_of(b))
}

/// An order by keys is asymmetric.
pub proof fn lemma_by_key_asymmetric<T>(key_of: spec_fn(T) -> Seq<int>)
    ensures
        asymmetric(by_key(key_of)),
{
    let lt = by_key(key_of);
    assert forall|a: T, b: T| #[trigger] lt(a, b) implies !lt(b, a) by {
        lemma_lex_asymmetric(key_of(a), key_of(b));
    }
}

/// Sorts `items` by their keys, in lexicographic order; items with equal keys
/// keep their order. `keys` holds the key of each item.
pub fn sort_by_keys<T>(items: &mut Vec<T>, keys: Vec<Vec<u32>>, Ghost(key_of): Ghost<
    spec_fn(T) -> Seq<int>,
>)
    requires
        keys@.len() == old(items)@.len(),
        forall|i: int| 0 <= i < keys@.len() ==> ints(#[trigger] keys@[i]@) == key_of(old(items)@[i]),
    ensures
        final(items)@ == sorted(old(items)@, by_key(key_of)),
{
    let mut keys = keys;
    let n = items.len();
    let ghost lt = by_key(key_of);
    let mut i: usize = 0;
    assert(items@.take(0) =~= Seq::<T>::empty());
    assert(old(items)@.take(0) =~= Seq::<T>::empty());
    assert(items@.skip(0) =~= old(items)@.skip(0));
    while i < n
        invariant
            i <= n,
            n == items@.len(),
            n == old(items)@.len(),
            keys@.len() == n,
            lt == by_key(key_of),
            forall|j: int| 0 <= j < n ==> ints(#[trigger] keys@[j]@) == key_of(items@[j]),
            items@.take(i as int) == sorted(old(items)@.take(i as int), lt),
            items@.skip(i as int) == old(items)@.skip(i as int),
        decreases n - i,
    {
        let ghost start = items@;
        let ghost t = start.take(i as int);
        let x = items.remove(i);
        let kx = keys.remove(i);
        assert(x == old(items)@.skip(i as int)[0]);
        assert(ints(kx@) == key_of(x));
        assert(forall|j: int| 0 <= j < i ==> items@[j] == t[j]);
        let mut p: usize = i;
        while p > 0 && key_less(&kx, &keys[p - 1])
            invariant
                p <= i,
                i < n,
                items@.len() == n - 1,
                keys@.len() == n - 1,
                lt == by_key(key_of),
                ints(kx@) == key_of(x),
                forall|j: int| 0 <= j < n - 1 ==> ints(#[trigger] keys@[j]@) == key_of(items@[j]),
                forall|j: int| 0 <= j < i ==> items@[j] == t[j],
                t.len() == i,
                forall|j: int| p <= j < i ==> lt(x, #[trigger] t[j]),
            decreases p,
        {
            p -= 1;
        }
        let ghost removed = items@;
        let ghost removed_keys = keys@;
        items.insert(p, x);
        keys.insert(p, kx);
        proof {
            assert(old(items)@.take(i + 1).drop_last() =~= old(items)@.take(i as int));
            assert(old(items)@.take(i + 1).last() == x);
            lemma_insert_position(t, x, lt, p as int);
            assert(removed =~= start.take(i as int) + start.skip(i + 1));
            assert(items@ =~= removed.take(p as int).push(x) + removed.skip(p as int));
            assert(items@.take(i + 1) =~= t.take(p as int).push(x) + t.skip(p as int));
            let tail_new = items@.skip(i + 1);
            let tail_old = old(items)@.skip(i + 1);
            assert forall|j: int| 0 <= j < n - (i + 1) implies #[trigger] tail_new[j]
                == tail_old[j] by {
                assert(tail_new[j] == items@[j + i + 1]);
                assert(items@[j + i + 1] == removed[j + i]);
                assert(removed[j + i] == start.skip(i + 1)[j]);
                assert(start[j + i + 1] == start.skip(i as int)[j + 1]);
            }
            assert(tail_new =~= tail_old);
            assert forall|j: int| 0 <= j < n implies ints(#[trigger] keys@[j]@) == key_of(
                items@[j],
            ) by {
                if j < p {
                    assert(keys@[j] == removed_keys[j]);
                    assert(items@[j] == removed[j]);
                } else if j > p {
                    assert(keys@[j] == removed_keys[j - 1]);
                    assert(items@[j] == removed[j - 1]);
                }
            }
        }
        i += 1;
    }
    assert(items@.take(n as int) =~= items@);
    assert(old(items)@.take(n as int) =~= old(items)@);
}

} // verus!
