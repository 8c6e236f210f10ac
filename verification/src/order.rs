//! The order of strings (`str`'s `Ord`: character by character) and a
//! stable insertion sort by a string key.

use vstd::prelude::*;

use crate::text::chars_of;

verus! {

/// Strict lexicographic order on character sequences (the order of `str`).
pub open spec fn lex_lt(a: Seq<char>, b: Seq<char>) -> bool
    decreases a.len(),
{
    if a.len() == 0 {
        b.len() > 0
    } else if b.len() == 0 {
        false
    } else if a[0] != b[0] {
        a[0] < b[0]
    } else {
        lex_lt(a.drop_first(), b.drop_first())
    }
}

/// No sequence sorts before itself.
pub proof fn lemma_lex_lt_irreflexive(a: Seq<char>)
    ensures
        !lex_lt(a, a),
    decreases a.len(),
{
    if a.len() > 0 {
        lemma_lex_lt_irreflexive(a.drop_first());
    }
}

/// `lex_lt` is transitive.
pub proof fn lemma_lex_lt_transitive(a: Seq<char>, b: Seq<char>, c: Seq<char>)
    requires
        lex_lt(a, b),
        lex_lt(b, c),
    ensures
        lex_lt(a, c),
    decreases a.len(),
{
    if a.len() > 0 && b.len() > 0 && c.len() > 0 && a[0] == b[0] && b[0] == c[0] {
        lemma_lex_lt_transitive(a.drop_first(), b.drop_first(), c.drop_first());
    }
}

/// Of two different sequences, one sorts before the other.
pub proof fn lemma_lex_lt_total(a: Seq<char>, b: Seq<char>)
    requires
        a != b,
    ensures
        lex_lt(a, b) || lex_lt(b, a),
    decreases a.len(),
{
    if a.len() > 0 && b.len() > 0 && a[0] == b[0] {
        if a.drop_first() == b.drop_first() {
            assert(a =~= seq![a[0]] + a.drop_first());
            assert(b =~= seq![b[0]] + b.drop_first());
        }
        lemma_lex_lt_total(a.drop_first(), b.drop_first());
    } else if a.len() == 0 && b.len() == 0 {
        assert(a =~= b);
    }
}

/// The key that is the element itself.
pub open spec fn identity_key() -> spec_fn(Seq<char>) -> Seq<char> {
    |v: Seq<char>| v
}

/// Whether `a` sorts strictly before `b`.
pub fn str_lt(a: &str, b: &str) -> (r: bool)
    ensures
        r == lex_lt(a@, b@),
{
    let x = chars_of(a);
    let y = chars_of(b);
    let mut i: usize = 0;
    assert(x@.skip(0) =~= x@);
    assert(y@.skip(0) =~= y@);
    while i < x.len() && i < y.len() && x[i] == y[i]
        invariant
            0 <= i <= x@.len(),
            i <= y@.len(),
            x@ == a@,
            y@ == b@,
            lex_lt(a@, b@) == lex_lt(x@.skip(i as int), y@.skip(i as int)),
        decreases x@.len() - i,
    {
        assert(x@.skip(i as int).drop_first() =~= x@.skip(i + 1));
        assert(y@.skip(i as int).drop_first() =~= y@.skip(i + 1));
        i = i + 1;
    }
    if i == x.len() {
        i < y.len()
    } else if i == y.len() {
        false
    } else {
        x[i] < y[i]
    }
}

/// `x` placed into `s` before the first element whose key is greater.
pub open spec fn insert_by<T>(s: Seq<T>, x: T, key: spec_fn(T) -> Seq<char>) -> Seq<T>
    decreases s.len(),
{
    if s.len() == 0 {
        seq![x]
    } else if lex_lt(key(x), key(s[0])) {
        seq![x] + s
    } else {
        seq![s[0]] + insert_by(s.drop_first(), x, key)
    }
}

/// `s` sorted by `key`, stably (a stable sort gives this order).
pub open spec fn sort_by<T>(s: Seq<T>, key: spec_fn(T) -> Seq<char>) -> Seq<T>
    decreases s.len(),
{
    if s.len() == 0 {
        Seq::empty()
    } else {
        insert_by(sort_by(s.drop_last(), key), s.last(), key)
    }
}

/// No element of `s` has a key below that of an earlier one.
pub open spec fn ordered_by<T>(s: Seq<T>, key: spec_fn(T) -> Seq<char>) -> bool {
    forall|i: int, j: int| 0 <= i < j < s.len() ==> !lex_lt(key(#[trigger] s[j]), key(#[trigger] s[i]))
}

proof fn lemma_insert_by_multiset<T>(s: Seq<T>, x: T, key: spec_fn(T) -> Seq<char>)
    ensures
        insert_by(s, x, key).to_multiset() == s.to_multiset().insert(x),
    decreases s.len(),
{
    broadcast use vstd::seq_lib::group_to_multiset_ensures;
    broadcast use vstd::multiset::group_multiset_axioms;

    if s.len() == 0 {
        assert(seq![x] =~= s.insert(0, x));
    } else if lex_lt(key(x), key(s[0])) {
        assert(seq![x] + s =~= s.insert(0, x));
    } else {
        let t = insert_by(s.drop_first(), x, key);
        lemma_insert_by_multiset(s.drop_first(), x, key);
        assert(seq![s[0]] + t =~= t.insert(0, s[0]));
        assert(s =~= s.drop_first().insert(0, s[0]));
        assert(t.insert(0, s[0]).to_multiset() =~= s.to_multiset().insert(x));
    }
}

proof fn lemma_insert_by_ordered<T>(s: Seq<T>, x: T, key: spec_fn(T) -> Seq<char>)
    requires
        ordered_by(s, key),
    ensures
        ordered_by(insert_by(s, x, key), key),
    decreases s.len(),
{
    broadcast use vstd::seq_lib::group_to_multiset_ensures;
    broadcast use vstd::multiset::group_multiset_axioms;

    let t = insert_by(s, x, key);
    if s.len() == 0 {
    } else if lex_lt(key(x), key(s[0])) {
        assert forall|i: int, j: int| 0 <= i < j < t.len() implies !lex_lt(key(#[trigger] t[j]), key(#[trigger] t[i])) by {
            if i == 0 {
                assert(t[j] == s[j - 1]);
                if lex_lt(key(s[j - 1]), key(x)) {
                    lemma_lex_lt_transitive(key(s[j - 1]), key(x), key(s[0]));
                    if j - 1 == 0 {
                        lemma_lex_lt_irreflexive(key(s[0]));
                    }
                }
            } else {
                assert(t[i] == s[i - 1] && t[j] == s[j - 1]);
            }
        }
    } else {
        let rest = s.drop_first();
        let u = insert_by(rest, x, key);
        lemma_insert_by_ordered(rest, x, key);
        lemma_insert_by_multiset(rest, x, key);
        assert forall|i: int, j: int| 0 <= i < j < t.len() implies !lex_lt(key(#[trigger] t[j]), key(#[trigger] t[i])) by {
            assert(t[j] == u[j - 1]);
            if i == 0 {
                let e = u[j - 1];
                assert(u.contains(e));
                assert(u.to_multiset().count(e) > 0);
                if e != x {
                    assert(rest.to_multiset().count(e) > 0);
                    assert(rest.contains(e));
                    let k = choose|k: int| 0 <= k < rest.len() && rest[k] == e;
                    assert(s[k + 1] == e);
                }
            } else {
                assert(t[i] == u[i - 1]);
            }
        }
    }
}

/// `sort_by` orders by key and keeps exactly the elements it is given.
pub proof fn lemma_sort_by<T>(s: Seq<T>, key: spec_fn(T) -> Seq<char>)
    ensures
        ordered_by(sort_by(s, key), key),
        sort_by(s, key).to_multiset() == s.to_multiset(),
    decreases s.len(),
{
    broadcast use vstd::seq_lib::group_to_multiset_ensures;

    if s.len() > 0 {
        lemma_sort_by(s.drop_last(), key);
        lemma_insert_by_ordered(sort_by(s.drop_last(), key), s.last(), key);
        lemma_insert_by_multiset(sort_by(s.drop_last(), key), s.last(), key);
        assert(s =~= s.drop_last().push(s.last()));
    }
}

/// Inserting before the first greater key is `insert_by`.
pub proof fn lemma_insert_by_at<T>(s: Seq<T>, x: T, key: spec_fn(T) -> Seq<char>, p: int)
    requires
        0 <= p <= s.len(),
        forall|k: int| 0 <= k < p ==> !lex_lt(key(x), key(#[trigger] s[k])),
        p < s.len() ==> lex_lt(key(x), key(s[p])),
    ensures
        insert_by(s, x, key) == s.insert(p, x),
    decreases p,
{
    if p == 0 {
        assert(s.insert(0, x) =~= seq![x] + s);
    } else {
        assert(!lex_lt(key(x), key(s[0])));
        lemma_insert_by_at(s.drop_first(), x, key, p - 1);
        assert(seq![s[0]] + s.drop_first().insert(p - 1, x) =~= s.insert(p, x));
    }
}

} // verus!
