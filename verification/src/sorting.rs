//! Stable sorting.
//!
//! A sequence is sorted by a key and a strict order when no element's key
//! comes strictly before the key of an element in front of it. A sort is
//! stable when the elements of every key keep their relative order; the
//! two together determine the result of a sort.
use vstd::prelude::*;
use crate::text::{
    lemma_str_less_irreflexive, lemma_str_less_total, lemma_str_less_transitive, str_less, str_lt,
};

verus! {

/// `less` is a strict total order.
pub open spec fn strict_total_order<K>(less: spec_fn(K, K) -> bool) -> bool {
    &&& forall|a: K| !(#[trigger] less(a, a))
    &&& forall|a: K, b: K, c: K| #[trigger] less(a, b) && #[trigger] less(b, c) ==> less(a, c)
    &&& forall|a: K, b: K| a != b ==> #[trigger] less(a, b) || less(b, a)
}

/// No element's key comes strictly before the key of an earlier element.
pub open spec fn sorted_by<T, K>(s: Seq<T>, key: spec_fn(T) -> K, less: spec_fn(K, K) -> bool) -> bool {
    forall|i: int, j: int| 0 <= i < j < s.len() ==> !less(key(#[trigger] s[j]), key(#[trigger] s[i]))
}

/// The elements of `s` whose key is `k`, in order.
pub open spec fn key_class<T, K>(s: Seq<T>, key: spec_fn(T) -> K, k: K) -> Seq<T> {
    s.filter(|x: T| key(x) == k)
}

/// `out` holds the elements of `inp`, and the elements of each key in the
/// same order.
pub open spec fn stable_permutation<T, K>(out: Seq<T>, inp: Seq<T>, key: spec_fn(T) -> K) -> bool {
    forall|k: K| #[trigger] key_class(out, key, k) == key_class(inp, key, k)
}

/// `out` is `inp` sorted stably by `key` and `less`.
pub open spec fn stably_sorted<T, K>(
    out: Seq<T>,
    inp: Seq<T>,
    key: spec_fn(T) -> K,
    less: spec_fn(K, K) -> bool,
) -> bool {
    &&& out.len() == inp.len()
    &&& sorted_by(out, key, less)
    &&& stable_permutation(out, inp, key)
}

/// A stable sort keeps exactly the elements it was given: the same number
/// of them, and each element of the input is in the output and the other
/// way round.
pub proof fn lemma_stably_sorted_elements<T, K>(
    out: Seq<T>,
    inp: Seq<T>,
    key: spec_fn(T) -> K,
    less: spec_fn(K, K) -> bool,
)
    requires
        stably_sorted(out, inp, key, less),
    ensures
        out.len() == inp.len(),
        forall|x: T| #[trigger] out.contains(x) <==> inp.contains(x),
{
    assert forall|x: T| #[trigger] out.contains(x) <==> inp.contains(x) by {
        let pred = |y: T| key(y) == key(x);
        if inp.contains(x) {
            let i = choose|i: int| 0 <= i < inp.len() && inp[i] == x;
            inp.lemma_filter_contains(pred, i);
            assert(key_class(inp, key, key(x)) == key_class(out, key, key(x)));
            out.lemma_filter_contains_rev(pred, x);
        }
        if out.contains(x) {
            let i = choose|i: int| 0 <= i < out.len() && out[i] == x;
            out.lemma_filter_contains(pred, i);
            assert(key_class(inp, key, key(x)) == key_class(out, key, key(x)));
            inp.lemma_filter_contains_rev(pred, x);
        }
    }
}

proof fn lemma_class_push<T, K>(s: Seq<T>, x: T, key: spec_fn(T) -> K, k: K)
    ensures
        key_class(s.push(x), key, k) == if key(x) == k {
            key_class(s, key, k).push(x)
        } else {
            key_class(s, key, k)
        },
{
    s.lemma_filter_push(x, |y: T| key(y) == k);
}

/// Inserting `x` in front of the first element whose key it strictly
/// precedes keeps a sorted sequence sorted, and places `x` after every
/// element of its own key.
proof fn lemma_insert_sorted<T, K>(
    out: Seq<T>,
    x: T,
    p: int,
    key: spec_fn(T) -> K,
    less: spec_fn(K, K) -> bool,
    k: K,
)
    requires
        strict_total_order(less),
        sorted_by(out, key, less),
        0 <= p <= out.len(),
        forall|j: int| 0 <= j < p ==> !less(key(x), key(#[trigger] out[j])),
        p < out.len() ==> less(key(x), key(out[p])),
    ensures
        sorted_by(out.insert(p, x), key, less),
        key_class(out.insert(p, x), key, k) == if key(x) == k {
            key_class(out, key, k).push(x)
        } else {
            key_class(out, key, k)
        },
{
    let r = out.insert(p, x);
    assert forall|j: int| p <= j < out.len() implies less(key(x), key(#[trigger] out[j])) by {
        if j > p {
            assert(!less(key(out[j]), key(out[p])));
            if key(out[j]) != key(out[p]) {
                assert(less(key(out[p]), key(out[j])));
            }
        }
    }
    assert forall|i: int, j: int| 0 <= i < j < r.len() implies !less(
        key(#[trigger] r[j]),
        key(#[trigger] r[i]),
    ) by {
        if i < p && j == p {
        } else if i == p && j > p {
            assert(r[j] == out[j - 1]);
            assert(less(key(x), key(out[j - 1])));
            if less(key(out[j - 1]), key(x)) {
                assert(less(key(x), key(x)));
            }
        } else if i < p && j > p {
            assert(r[j] == out[j - 1]);
        } else if i > p {
            assert(r[j] == out[j - 1]);
            assert(r[i] == out[i - 1]);
        }
    }
    let f = |y: T| key(y) == k;
    let a = out.take(p);
    let b = out.skip(p);
    assert(out =~= a + b);
    assert(r =~= a.push(x) + b);
    Seq::filter_distributes_over_add(a, b, f);
    Seq::filter_distributes_over_add(a.push(x), b, f);
    a.lemma_filter_push(x, f);
    if key(x) == k {
        assert forall|j: int| 0 <= j < b.len() implies !f(b[j]) by {
            assert(b[j] == out[p + j]);
            assert(less(key(x), key(out[p + j])));
        }
        assert(b.filter(f) =~= Seq::<T>::empty()) by {
            if b.filter(f).len() > 0 {
                b.lemma_filter_pred(f, 0);
                b.lemma_filter_contains_rev(f, b.filter(f)[0]);
            }
        }
        assert(key_class(out, key, k) =~= a.filter(f));
        assert(key_class(r, key, k) =~= a.filter(f).push(x));
    }
}

/// Sorts `items` stably by the order that `precedes` decides: `precedes(a, b)`
/// is whether the key of `a` comes strictly before the key of `b`.
pub fn stable_sort<T, K, F: Fn(&T, &T) -> bool>(
    items: Vec<T>,
    precedes: &F,
    Ghost(key): Ghost<spec_fn(T) -> K>,
    Ghost(less): Ghost<spec_fn(K, K) -> bool>,
) -> (out: Vec<T>)
    requires
        strict_total_order(less),
        forall|a: &T, b: &T| #[trigger] precedes.requires((a, b)),
        forall|a: &T, b: &T, r: bool| #[trigger] precedes.ensures((a, b), r) ==> r == less(key(*a), key(*b)),
    ensures
        stably_sorted(out@, items@, key, less),
{
    let ghost inp = items@;
    let mut rest = items;
    let mut out: Vec<T> = Vec::new();
    let ghost mut taken: int = 0;
    while rest.len() > 0
        invariant
            strict_total_order(less),
            forall|a: &T, b: &T| #[trigger] precedes.requires((a, b)),
            forall|a: &T, b: &T, r: bool| #[trigger] precedes.ensures((a, b), r) ==> r == less(key(*a), key(*b)),
            0 <= taken <= inp.len(),
            rest@ == inp.skip(taken),
            out@.len() == taken,
            sorted_by(out@, key, less),
            forall|k: K| #[trigger] key_class(out@, key, k) == key_class(inp.take(taken), key, k),
        decreases rest@.len(),
    {
        let x = rest.remove(0);
        let mut p: usize = 0;
        while p < out.len()
            invariant
                forall|a: &T, b: &T| #[trigger] precedes.requires((a, b)),
                forall|a: &T, b: &T, r: bool| #[trigger] precedes.ensures((a, b), r) ==> r == less(key(*a), key(*b)),
                p <= out@.len(),
                forall|j: int| 0 <= j < p ==> !less(key(x), key(#[trigger] out@[j])),
            ensures
                p <= out@.len(),
                forall|j: int| 0 <= j < p ==> !less(key(x), key(#[trigger] out@[j])),
                p < out@.len() ==> less(key(x), key(out@[p as int])),
            decreases out@.len() - p,
        {
            if precedes(&x, &out[p]) {
                break;
            }
            p += 1;
        }
        proof {
            assert(inp.take(taken + 1) =~= inp.take(taken).push(x));
            assert forall|k: K| #[trigger] key_class(out@.insert(p as int, x), key, k) == key_class(inp.take(taken + 1), key, k) by {
                lemma_insert_sorted(out@, x, p as int, key, less, k);
                lemma_class_push(inp.take(taken), x, key, k);
            }
            lemma_insert_sorted(out@, x, p as int, key, less, key(x));
        }
        out.insert(p, x);
        proof {
            taken = taken + 1;
            assert(rest@ =~= inp.skip(taken));
        }
    }
    assert(inp.take(taken) =~= inp);
    out
}

/// Something ordered by a name.
pub trait Named {
    spec fn name_view(&self) -> Seq<char>;

    fn name(&self) -> (r: &str)
        ensures
            r@ == self.name_view(),
    ;
}

impl Named for String {
    open spec fn name_view(&self) -> Seq<char> {
        self@
    }

    fn name(&self) -> (r: &str) {
        self.as_str()
    }
}

impl<'a> Named for &'a str {
    open spec fn name_view(&self) -> Seq<char> {
        (*self)@
    }

    fn name(&self) -> (r: &str) {
        *self
    }
}

/// The name of an item, as a spec function value.
pub open spec fn name_key<T: Named>() -> spec_fn(T) -> Seq<char> {
    |x: T| x.name_view()
}

/// Ascending order of names.
pub open spec fn ascending() -> spec_fn(Seq<char>, Seq<char>) -> bool {
    |a: Seq<char>, b: Seq<char>| str_less(a, b)
}

/// Descending order of names.
pub open spec fn descending() -> spec_fn(Seq<char>, Seq<char>) -> bool {
    |a: Seq<char>, b: Seq<char>| str_less(b, a)
}

proof fn lemma_name_orders()
    ensures
        strict_total_order(ascending()),
        strict_total_order(descending()),
{
    assert forall|a: Seq<char>| !(#[trigger] str_less(a, a)) by {
        lemma_str_less_irreflexive(a);
    }
    assert forall|a: Seq<char>, b: Seq<char>, c: Seq<char>| #[trigger] str_less(a, b) && #[trigger] str_less(b, c) implies str_less(a, c) by {
        lemma_str_less_transitive(a, b, c);
    }
    assert forall|a: Seq<char>, b: Seq<char>| a != b implies #[trigger] str_less(a, b) || str_less(b, a) by {
        lemma_str_less_total(a, b);
    }
    assert(strict_total_order(ascending()));
    assert(strict_total_order(descending()));
}

/// Sorts by name, ascending or descending, keeping items of equal name in
/// their order.
pub fn sort_by_name<T: Named>(items: Vec<T>, descending_order: bool) -> (out: Vec<T>)
    ensures
        descending_order ==> stably_sorted(out@, items@, name_key::<T>(), descending()),
        !descending_order ==> stably_sorted(out@, items@, name_key::<T>(), ascending()),
{
    proof {
        lemma_name_orders();
    }
    if descending_order {
        let precedes = |a: &T, b: &T| -> (r: bool)
            ensures
                r == str_less(b.name_view(), a.name_view()),
            { str_lt(b.name(), a.name()) };
        stable_sort::<T, Seq<char>, _>(items, &precedes, Ghost(name_key::<T>()), Ghost(descending()))
    } else {
        let precedes = |a: &T, b: &T| -> (r: bool)
            ensures
                r == str_less(a.name_view(), b.name_view()),
            { str_lt(a.name(), b.name()) };
        stable_sort::<T, Seq<char>, _>(items, &precedes, Ghost(name_key::<T>()), Ghost(ascending()))
    }
}

} // verus!
