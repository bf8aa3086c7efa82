//! Association lists: sequences of (key, value) entries read as finite maps.
//!
//! A key's value is the value of its first entry. Assigning a key overwrites
//! its first entry in place, or appends an entry when the key is new (the
//! behaviour of a map insert); removing a key drops every entry of it.
use vstd::prelude::*;

verus! {

/// The value of the first entry whose key is `k`.
pub open spec fn lookup<K, V>(s: Seq<(K, V)>, k: K) -> Option<V>
    decreases s.len(),
{
    if s.len() == 0 {
        None
    } else if s[0].0 == k {
        Some(s[0].1)
    } else {
        lookup(s.drop_first(), k)
    }
}

/// `s` with `k` bound to `v`: the first entry of `k` is replaced, or an
/// entry is appended when `k` has none.
pub open spec fn assign<K, V>(s: Seq<(K, V)>, k: K, v: V) -> Seq<(K, V)>
    decreases s.len(),
{
    if s.len() == 0 {
        seq![(k, v)]
    } else if s[0].0 == k {
        s.update(0, (k, v))
    } else {
        seq![s[0]] + assign(s.drop_first(), k, v)
    }
}

/// `s` without any entry of `k`.
pub open spec fn remove_key<K, V>(s: Seq<(K, V)>, k: K) -> Seq<(K, V)> {
    s.filter(|e: (K, V)| e.0 != k)
}

/// No key has two entries.
pub open spec fn keys_unique<K, V>(s: Seq<(K, V)>) -> bool {
    forall|i: int, j: int| 0 <= i < j < s.len() ==> s[i].0 != s[j].0
}

pub proof fn lemma_lookup_first<K, V>(s: Seq<(K, V)>, k: K, i: int)
    requires
        0 <= i < s.len(),
        s[i].0 == k,
        forall|j: int| 0 <= j < i ==> s[j].0 != k,
    ensures
        lookup(s, k) == Some(s[i].1),
    decreases i,
{
    if i > 0 {
        assert(s[0].0 != k);
        lemma_lookup_first(s.drop_first(), k, i - 1);
    }
}

pub proof fn lemma_lookup_absent<K, V>(s: Seq<(K, V)>, k: K)
    requires
        forall|j: int| 0 <= j < s.len() ==> s[j].0 != k,
    ensures
        lookup(s, k) is None,
    decreases s.len(),
{
    if s.len() > 0 {
        assert(s[0].0 != k);
        lemma_lookup_absent(s.drop_first(), k);
    }
}

pub proof fn lemma_assign_at<K, V>(s: Seq<(K, V)>, k: K, v: V, i: int)
    requires
        0 <= i < s.len(),
        s[i].0 == k,
        forall|j: int| 0 <= j < i ==> s[j].0 != k,
    ensures
        assign(s, k, v) == s.update(i, (k, v)),
    decreases i,
{
    if i > 0 {
        assert(s[0].0 != k);
        lemma_assign_at(s.drop_first(), k, v, i - 1);
        assert(seq![s[0]] + s.drop_first().update(i - 1, (k, v)) =~= s.update(i, (k, v)));
    }
}

pub proof fn lemma_assign_absent<K, V>(s: Seq<(K, V)>, k: K, v: V)
    requires
        forall|j: int| 0 <= j < s.len() ==> s[j].0 != k,
    ensures
        assign(s, k, v) == s.push((k, v)),
    decreases s.len(),
{
    if s.len() > 0 {
        assert(s[0].0 != k);
        lemma_assign_absent(s.drop_first(), k, v);
        assert(seq![s[0]] + s.drop_first().push((k, v)) =~= s.push((k, v)));
    } else {
        assert(seq![(k, v)] =~= s.push((k, v)));
    }
}

/// Reading a key after assigning it gives the assigned value; other keys
/// keep their values.
pub proof fn lemma_lookup_assign<K, V>(s: Seq<(K, V)>, k: K, v: V, k2: K)
    ensures
        lookup(assign(s, k, v), k2) == if k2 == k {
            Some(v)
        } else {
            lookup(s, k2)
        },
    decreases s.len(),
{
    let a = assign(s, k, v);
    if s.len() == 0 {
        assert(a.drop_first() =~= Seq::<(K, V)>::empty());
        assert(lookup(a.drop_first(), k2) is None);
    } else if s[0].0 == k {
        assert(a[0] == (k, v));
        assert(a.drop_first() =~= s.drop_first());
    } else {
        lemma_lookup_assign(s.drop_first(), k, v, k2);
        assert(a[0] == s[0]);
        assert(a.drop_first() =~= assign(s.drop_first(), k, v));
    }
}

/// Assigning the same binding twice is the same as assigning it once.
pub proof fn lemma_assign_twice<K, V>(s: Seq<(K, V)>, k: K, v: V)
    ensures
        assign(assign(s, k, v), k, v) == assign(s, k, v),
    decreases s.len(),
{
    let a = assign(s, k, v);
    if s.len() == 0 {
        assert(a.update(0, (k, v)) =~= a);
    } else if s[0].0 == k {
        assert(a.update(0, (k, v)) =~= a);
    } else {
        lemma_assign_twice(s.drop_first(), k, v);
        assert(a[0] == s[0]);
        assert(a.drop_first() =~= assign(s.drop_first(), k, v));
        assert(seq![a[0]] + assign(a.drop_first(), k, v) =~= a);
    }
}

/// Assigning a key (as setting a flag or a selection does) keeps keys unique.
pub proof fn lemma_assign_unique<K, V>(s: Seq<(K, V)>, k: K, v: V)
    requires
        keys_unique(s),
    ensures
        keys_unique(assign(s, k, v)),
{
    if exists|i: int| 0 <= i < s.len() && s[i].0 == k {
        let i = choose|i: int| 0 <= i < s.len() && s[i].0 == k;
        assert forall|j: int| 0 <= j < i implies s[j].0 != k by {}
        lemma_assign_at(s, k, v, i);
    } else {
        lemma_assign_absent(s, k, v);
    }
}

pub proof fn lemma_lookup_push<K, V>(s: Seq<(K, V)>, x: (K, V), k: K)
    ensures
        lookup(s.push(x), k) == match lookup(s, k) {
            Some(v) => Some(v),
            None => if x.0 == k {
                Some(x.1)
            } else {
                None
            },
        },
    decreases s.len(),
{
    if s.len() > 0 {
        assert(s.push(x)[0] == s[0]);
        assert(s.push(x).drop_first() =~= s.drop_first().push(x));
        lemma_lookup_push(s.drop_first(), x, k);
    } else {
        assert(s.push(x)[0] == x);
        assert(s.push(x).drop_first() =~= Seq::<(K, V)>::empty());
        assert(lookup(s.push(x).drop_first(), k) is None);
    }
}

/// After removing a key it has no value; other keys keep theirs.
pub proof fn lemma_lookup_remove<K, V>(s: Seq<(K, V)>, k: K, k2: K)
    ensures
        lookup(remove_key(s, k), k2) == if k2 == k {
            None
        } else {
            lookup(s, k2)
        },
    decreases s.len(),
{
    let f = |e: (K, V)| e.0 != k;
    if s.len() == 0 {
        assert(s.filter(f) =~= Seq::<(K, V)>::empty());
    } else {
        let init = s.drop_last();
        assert(s =~= init.push(s.last()));
        lemma_lookup_remove(init, k, k2);
        init.lemma_filter_push(s.last(), f);
        lemma_lookup_push(init, s.last(), k2);
        if s.last().0 != k {
            lemma_lookup_push(init.filter(f), s.last(), k2);
        }
    }
}

/// Removing a key (as clearing a flag does) keeps keys unique.
pub proof fn lemma_remove_unique<K, V>(s: Seq<(K, V)>, k: K)
    requires
        keys_unique(s),
    ensures
        keys_unique(remove_key(s, k)),
    decreases s.len(),
{
    let f = |e: (K, V)| e.0 != k;
    if s.len() > 0 {
        let init = s.drop_last();
        assert(s =~= init.push(s.last()));
        lemma_remove_unique(init, k);
        init.lemma_filter_push(s.last(), f);
        if s.last().0 != k {
            let r = init.filter(f);
            assert forall|j: int| 0 <= j < r.len() implies r[j].0 != s.last().0 by {
                init.lemma_filter_pred(f, j);
                init.lemma_filter_contains_rev(f, r[j]);
                let m = choose|m: int| 0 <= m < init.len() && init[m] == r[j];
                assert(s[m] == init[m]);
            }
        }
    }
}

} // verus!
