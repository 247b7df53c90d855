//! Stable insertion sort, at the specification level.
//!
//! The catalog, the search results and the recently-used list are all
//! ordered sequences; each is pinned to `sort_by_spec` under its own
//! ordering relation.  The lemmas here give the three facts the
//! components need: the output is sorted, it is a permutation of the
//! input, and elements that tie under the ordering keep their input
//! order (stability, stated through `Seq::filter`).

use vstd::prelude::*;
use vstd::relations::{sorted_by, strongly_connected, transitive};

verus! {

/// Inserts `x` into `t` behind every element `e` with `leq(e, x)`.
/// An element that ties with `x` therefore stays in front of it, which
/// is what makes the sort built from this insertion stable.
pub open spec fn insert_sorted<T>(leq: spec_fn(T, T) -> bool, t: Seq<T>, x: T) -> Seq<T>
    decreases t.len(),
{
    if t.len() == 0 {
        seq![x]
    } else if leq(t.last(), x) {
        t.push(x)
    } else {
        insert_sorted(leq, t.drop_last(), x).push(t.last())
    }
}

/// Stable insertion sort of `s` under `leq`.
pub open spec fn sort_by_spec<T>(leq: spec_fn(T, T) -> bool, s: Seq<T>) -> Seq<T>
    decreases s.len(),
{
    if s.len() == 0 {
        Seq::empty()
    } else {
        insert_sorted(leq, sort_by_spec(leq, s.drop_last()), s.last())
    }
}

pub proof fn lemma_insert_sorted_len<T>(leq: spec_fn(T, T) -> bool, t: Seq<T>, x: T)
    ensures
        insert_sorted(leq, t, x).len() == t.len() + 1,
    decreases t.len(),
{
    if t.len() == 0 {
    } else if leq(t.last(), x) {
    } else {
        lemma_insert_sorted_len(leq, t.drop_last(), x);
    }
}

pub proof fn lemma_insert_sorted_multiset<T>(leq: spec_fn(T, T) -> bool, t: Seq<T>, x: T)
    ensures
        insert_sorted(leq, t, x).to_multiset() == t.to_multiset().insert(x),
    decreases t.len(),
{
    broadcast use vstd::seq_lib::group_to_multiset_ensures;

    if t.len() == 0 {
        assert(insert_sorted(leq, t, x) =~= Seq::empty().push(x));
        assert(t =~= Seq::<T>::empty());
    } else if leq(t.last(), x) {
    } else {
        lemma_insert_sorted_multiset(leq, t.drop_last(), x);
        assert(t.drop_last().push(t.last()) =~= t);
        assert(insert_sorted(leq, t, x).to_multiset() =~= t.to_multiset().insert(x));
    }
}

pub proof fn lemma_insert_sorted_sorted<T>(leq: spec_fn(T, T) -> bool, t: Seq<T>, x: T)
    requires
        strongly_connected(leq),
        transitive(leq),
        sorted_by(t, leq),
    ensures
        sorted_by(insert_sorted(leq, t, x), leq),
    decreases t.len(),
{
    broadcast use vstd::seq_lib::group_to_multiset_ensures;

    if t.len() == 0 {
    } else if leq(t.last(), x) {
        assert forall|i: int| 0 <= i < t.len() implies leq(t[i], x) by {
            if i < t.len() - 1 {
                assert(leq(t[i], t.last()));
            }
        }
    } else {
        let td = t.drop_last();
        assert(sorted_by(td, leq));
        lemma_insert_sorted_sorted(leq, td, x);
        lemma_insert_sorted_multiset(leq, td, x);
        let r = insert_sorted(leq, td, x);
        // every element of r is x or an element of td, and both precede t.last()
        assert(!leq(t.last(), x));
        assert(leq(x, t.last()));
        assert forall|i: int| 0 <= i < r.len() implies leq(r[i], t.last()) by {
            assert(r.to_multiset().count(r[i]) > 0);
            if r[i] == x {
            } else {
                assert(td.to_multiset().count(r[i]) > 0);
                assert(td.contains(r[i]));
                let j = choose|j: int| 0 <= j < td.len() && td[j] == r[i];
                assert(t[j] == td[j]);
                assert(leq(t[j], t.last()));
            }
        }
    }
}

pub proof fn lemma_sort_by_spec_sorted<T>(leq: spec_fn(T, T) -> bool, s: Seq<T>)
    requires
        strongly_connected(leq),
        transitive(leq),
    ensures
        sorted_by(sort_by_spec(leq, s), leq),
    decreases s.len(),
{
    if s.len() == 0 {
    } else {
        lemma_sort_by_spec_sorted(leq, s.drop_last());
        lemma_insert_sorted_sorted(leq, sort_by_spec(leq, s.drop_last()), s.last());
    }
}

pub proof fn lemma_sort_by_spec_multiset<T>(leq: spec_fn(T, T) -> bool, s: Seq<T>)
    ensures
        sort_by_spec(leq, s).to_multiset() == s.to_multiset(),
        sort_by_spec(leq, s).len() == s.len(),
    decreases s.len(),
{
    broadcast use vstd::seq_lib::group_to_multiset_ensures;

    if s.len() == 0 {
        assert(sort_by_spec(leq, s) =~= s);
    } else {
        lemma_sort_by_spec_multiset(leq, s.drop_last());
        lemma_insert_sorted_multiset(leq, sort_by_spec(leq, s.drop_last()), s.last());
        lemma_insert_sorted_len(leq, sort_by_spec(leq, s.drop_last()), s.last());
        assert(s.drop_last().push(s.last()) =~= s);
        assert(sort_by_spec(leq, s).to_multiset() =~= s.to_multiset());
    }
}

/// An element of the sorted sequence is an element of the input.
pub proof fn lemma_sort_by_spec_contains<T>(leq: spec_fn(T, T) -> bool, s: Seq<T>, x: T)
    ensures
        sort_by_spec(leq, s).contains(x) <==> s.contains(x),
{
    broadcast use vstd::seq_lib::group_to_multiset_ensures;

    lemma_sort_by_spec_multiset(leq, s);
    assert(sort_by_spec(leq, s).to_multiset().count(x) == s.to_multiset().count(x));
    assert(s.contains(x) <==> s.to_multiset().count(x) > 0);
    assert(sort_by_spec(leq, s).contains(x) <==> sort_by_spec(leq, s).to_multiset().count(x) > 0);
}

/// Inserting `x` commutes with filtering, provided every kept element
/// precedes `x` under `leq` whenever `x` itself is kept.
pub proof fn lemma_insert_sorted_filter<T>(
    leq: spec_fn(T, T) -> bool,
    keep: spec_fn(T) -> bool,
    t: Seq<T>,
    x: T,
)
    requires
        keep(x) ==> forall|a: T| #[trigger] keep(a) ==> leq(a, x),
    ensures
        insert_sorted(leq, t, x).filter(keep) == if keep(x) {
            t.filter(keep).push(x)
        } else {
            t.filter(keep)
        },
    decreases t.len(),
{
    reveal(Seq::filter);
    if t.len() == 0 {
        assert(t =~= Seq::<T>::empty());
        assert(seq![x].drop_last() =~= Seq::<T>::empty());
    } else if leq(t.last(), x) {
        assert(t.push(x).drop_last() =~= t);
    } else {
        let td = t.drop_last();
        lemma_insert_sorted_filter(leq, keep, td, x);
        lemma_insert_sorted_len(leq, td, x);
        let r = insert_sorted(leq, td, x).push(t.last());
        assert(r.len() > 0);
        assert(r.last() == t.last());
        assert(r.drop_last() =~= insert_sorted(leq, td, x));
        assert(r.filter(keep) == if keep(t.last()) {
            insert_sorted(leq, td, x).filter(keep).push(t.last())
        } else {
            insert_sorted(leq, td, x).filter(keep)
        });
        if keep(x) && keep(t.last()) {
            // both kept would force leq(t.last(), x), against this branch
            assert(leq(t.last(), x));
            assert(false);
        }
    }
}

/// Stability: sorting does not reorder the elements of any class whose
/// members all tie with one another under `leq`.
pub proof fn lemma_sort_by_spec_filter<T>(
    leq: spec_fn(T, T) -> bool,
    keep: spec_fn(T) -> bool,
    s: Seq<T>,
)
    requires
        forall|a: T, b: T| #[trigger] keep(a) && #[trigger] keep(b) ==> leq(a, b),
    ensures
        sort_by_spec(leq, s).filter(keep) == s.filter(keep),
    decreases s.len(),
{
    reveal(Seq::filter);
    if s.len() == 0 {
        assert(sort_by_spec(leq, s) =~= s);
    } else {
        lemma_sort_by_spec_filter(leq, keep, s.drop_last());
        lemma_insert_sorted_filter(leq, keep, sort_by_spec(leq, s.drop_last()), s.last());
    }
}

/// A filtered element is an element of the original sequence.
pub proof fn lemma_filter_in_original<T>(s: Seq<T>, pred: spec_fn(T) -> bool, i: int)
    requires
        0 <= i < s.filter(pred).len(),
    ensures
        s.contains(s.filter(pred)[i]),
    decreases s.len(),
{
    reveal(Seq::filter);
    if s.len() == 0 {
    } else {
        let sub = s.drop_last().filter(pred);
        if i < sub.len() {
            lemma_filter_in_original(s.drop_last(), pred, i);
            let j = choose|j: int| 0 <= j < s.drop_last().len() && s.drop_last()[j] == sub[i];
            assert(s[j] == sub[i]);
            assert(s.filter(pred)[i] == sub[i]);
        } else {
            assert(pred(s.last()));
            assert(s.filter(pred)[i] == s.last());
            assert(s[s.len() - 1] == s.last());
        }
    }
}

/// The shape of one insertion, as executable code performs it: the new
/// element lands at the first position `k`, counted from the back, whose
/// predecessor may stay in front of it.
pub proof fn lemma_insert_sorted_split<T>(leq: spec_fn(T, T) -> bool, t: Seq<T>, x: T, k: int)
    requires
        0 <= k <= t.len(),
        forall|j: int| k <= j < t.len() ==> !leq(#[trigger] t[j], x),
        k > 0 ==> leq(t[k - 1], x),
    ensures
        insert_sorted(leq, t, x) == t.take(k) + seq![x] + t.skip(k),
    decreases t.len(),
{
    if t.len() == 0 {
        assert(insert_sorted(leq, t, x) =~= t.take(0) + seq![x] + t.skip(0));
    } else if leq(t.last(), x) {
        assert(k == t.len());
        assert(t.push(x) =~= t.take(k) + seq![x] + t.skip(k));
    } else {
        assert(k < t.len());
        let td = t.drop_last();
        assert(forall|j: int| k <= j < td.len() ==> !leq(#[trigger] td[j], x));
        lemma_insert_sorted_split(leq, td, x, k);
        let unfolded = (td.take(k) + seq![x] + td.skip(k)).push(t.last());
        assert(unfolded =~= t.take(k) + seq![x] + t.skip(k));
    }
}

} // verus!
