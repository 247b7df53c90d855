//! Fuzzy search over a catalog snapshot.
//!
//! A non-empty query is scored against every record's display name by the
//! skim fuzzy matcher; records the matcher rejects are excluded, and the
//! survivors are ordered by score, best first, with equal scores keeping
//! their catalog order.  An empty query returns the snapshot unchanged.

use vstd::prelude::*;
use vstd::relations::{strongly_connected, transitive};

use crate::model::{AppView, ApplicationEntry};
use crate::order::{
    insert_sorted, lemma_insert_sorted_split, lemma_sort_by_spec_filter, lemma_sort_by_spec_multiset,
    lemma_sort_by_spec_sorted, sort_by_spec,
};

verus! {

/// The score the skim fuzzy matcher assigns to a candidate string for a
/// query, `None` when the matcher reports no match.  The matcher computes
/// it from the two strings alone, so the score is a fixed function of
/// them; nothing shorter than the matcher's own algorithm describes it.
pub uninterp spec fn skim_score(choice: Seq<char>, pattern: Seq<char>) -> Option<i64>;

/// Relies on fuzzy_matcher's `SkimMatcherV2::fuzzy_match` in the default
/// configuration: a deterministic score of (choice, pattern); its
/// thread-local buffers are scratch space only.
#[verifier::external_body]
fn fuzzy_match(choice: &str, pattern: &str) -> (r: Option<i64>)
    ensures
        r == skim_score(choice@, pattern@),
{
    let matcher = fuzzy_matcher::skim::SkimMatcherV2::default();
    fuzzy_matcher::FuzzyMatcher::fuzzy_match(&matcher, choice, pattern)
}

/// Whether the matcher accepts a record's display name for the query.
pub open spec fn matches_query(v: AppView, pattern: Seq<char>) -> bool {
    skim_score(v.name, pattern) is Some
}

/// The matching records paired with their scores, in snapshot order.
pub open spec fn scored(s: Seq<AppView>, pattern: Seq<char>) -> Seq<(i64, AppView)>
    decreases s.len(),
{
    if s.len() == 0 {
        Seq::empty()
    } else {
        scored(s.drop_last(), pattern) + match skim_score(s.last().name, pattern) {
            Option::Some(sc) => seq![(sc, s.last())],
            Option::None => Seq::empty(),
        }
    }
}

/// Result pairs order: higher score first; ties keep their input order
/// when sorted stably.
pub open spec fn score_order() -> spec_fn((i64, AppView), (i64, AppView)) -> bool {
    |a: (i64, AppView), b: (i64, AppView)| a.0 >= b.0
}

pub proof fn lemma_score_order_properties()
    ensures
        strongly_connected(score_order()),
        transitive(score_order()),
{
    let leq = score_order();
    assert forall|a: (i64, AppView), b: (i64, AppView)|
        #[trigger] leq(a, b) || #[trigger] leq(b, a) by {}
    assert forall|a: (i64, AppView), b: (i64, AppView), c: (i64, AppView)|
        #[trigger] leq(a, b) && #[trigger] leq(b, c) implies leq(a, c) by {}
}

/// What [`SearchEngine::filter`] returns.
pub open spec fn search_spec(s: Seq<AppView>, pattern: Seq<char>) -> Seq<AppView> {
    if pattern.len() == 0 {
        s
    } else {
        sort_by_spec(score_order(), scored(s, pattern)).map_values(|p: (i64, AppView)| p.1)
    }
}

/// Every scored pair carries the matcher's score for its record, and the
/// record comes from the snapshot.
pub proof fn lemma_scored_elems(s: Seq<AppView>, pattern: Seq<char>)
    ensures
        forall|k: int|
            #![trigger scored(s, pattern)[k]]
            0 <= k < scored(s, pattern).len() ==> skim_score(scored(s, pattern)[k].1.name, pattern)
                == Option::Some(scored(s, pattern)[k].0) && s.contains(scored(s, pattern)[k].1),
    decreases s.len(),
{
    if s.len() == 0 {
    } else {
        let t = s.drop_last();
        lemma_scored_elems(t, pattern);
        assert forall|k: int|
            #![trigger scored(s, pattern)[k]]
            0 <= k < scored(s, pattern).len() implies skim_score(
            scored(s, pattern)[k].1.name,
            pattern,
        ) == Option::Some(scored(s, pattern)[k].0) && s.contains(scored(s, pattern)[k].1) by {
            if k < scored(t, pattern).len() {
                assert(scored(s, pattern)[k] == scored(t, pattern)[k]);
                let m = choose|m: int| 0 <= m < t.len() && t[m] == scored(t, pattern)[k].1;
                assert(s[m] == scored(s, pattern)[k].1);
            } else {
                assert(scored(s, pattern)[k].1 == s.last());
                assert(s[s.len() - 1] == s.last());
            }
        }
    }
}

/// Every matching record of the snapshot gets a scored pair.
pub proof fn lemma_scored_complete(s: Seq<AppView>, pattern: Seq<char>)
    ensures
        forall|i: int|
            #![trigger s[i]]
            0 <= i < s.len() && matches_query(s[i], pattern) ==> exists|k: int|
                0 <= k < scored(s, pattern).len() && scored(s, pattern)[k].1 == s[i],
    decreases s.len(),
{
    if s.len() == 0 {
    } else {
        let t = s.drop_last();
        lemma_scored_complete(t, pattern);
        assert forall|i: int|
            #![trigger s[i]]
            0 <= i < s.len() && matches_query(s[i], pattern) implies exists|k: int|
            0 <= k < scored(s, pattern).len() && scored(s, pattern)[k].1 == s[i] by {
            if i < s.len() - 1 {
                assert(t[i] == s[i]);
                let k = choose|k: int|
                    0 <= k < scored(t, pattern).len() && scored(t, pattern)[k].1 == t[i];
                assert(scored(s, pattern)[k].1 == s[i]);
            } else {
                let k = scored(s, pattern).len() - 1;
                assert(scored(s, pattern)[k].1 == s[i]);
            }
        }
    }
}

/// Scored pairs of a snapshot with pairwise distinct ids carry pairwise
/// distinct ids themselves.
proof fn lemma_scored_unique(s: Seq<AppView>, pattern: Seq<char>)
    requires
        forall|i: int, j: int| 0 <= i < j < s.len() ==> #[trigger] s[i].id != #[trigger] s[j].id,
    ensures
        forall|k1: int, k2: int|
            0 <= k1 < k2 < scored(s, pattern).len() ==> #[trigger] scored(s, pattern)[k1].1.id
                != #[trigger] scored(s, pattern)[k2].1.id,
    decreases s.len(),
{
    if s.len() == 0 {
    } else {
        let t = s.drop_last();
        assert forall|i: int, j: int| 0 <= i < j < t.len() implies #[trigger] t[i].id
            != #[trigger] t[j].id by {
            assert(s[i] == t[i]);
            assert(s[j] == t[j]);
        }
        lemma_scored_unique(t, pattern);
        lemma_scored_elems(t, pattern);
        assert forall|k1: int, k2: int|
            0 <= k1 < k2 < scored(s, pattern).len() implies scored(s, pattern)[k1].1.id != scored(
            s,
            pattern,
        )[k2].1.id by {
            if k2 < scored(t, pattern).len() {
                assert(scored(s, pattern)[k1] == scored(t, pattern)[k1]);
                assert(scored(s, pattern)[k2] == scored(t, pattern)[k2]);
            } else {
                // k2 names the pair of the last record
                assert(scored(s, pattern)[k1] == scored(t, pattern)[k1]);
                assert(scored(s, pattern)[k2].1 == s.last());
                let m = choose|m: int| 0 <= m < t.len() && t[m] == scored(t, pattern)[k1].1;
                assert(s[m] == t[m]);
                assert(s[m].id != s[s.len() - 1].id);
            }
        }
    }
}

/// Search soundness: a non-empty query returns exactly the records the
/// fuzzy matcher accepts — every returned record is a matching snapshot
/// record, and every matching snapshot record is returned.
pub proof fn lemma_search_sound(s: Seq<AppView>, pattern: Seq<char>)
    requires
        pattern.len() > 0,
    ensures
        forall|k: int|
            #![trigger search_spec(s, pattern)[k]]
            0 <= k < search_spec(s, pattern).len() ==> matches_query(
                search_spec(s, pattern)[k],
                pattern,
            ) && s.contains(search_spec(s, pattern)[k]),
        forall|i: int|
            #![trigger s[i]]
            0 <= i < s.len() && matches_query(s[i], pattern) ==> search_spec(s, pattern).contains(
                s[i],
            ),
{
    let sc = scored(s, pattern);
    let leq = score_order();
    let srt = sort_by_spec(leq, sc);
    let out = search_spec(s, pattern);
    lemma_scored_elems(s, pattern);
    lemma_scored_complete(s, pattern);
    assert forall|k: int|
        #![trigger out[k]]
        0 <= k < out.len() implies matches_query(out[k], pattern) && s.contains(out[k]) by {
        assert(out[k] == srt[k].1);
        assert(srt.contains(srt[k]));
        crate::order::lemma_sort_by_spec_contains(leq, sc, srt[k]);
        let m = choose|m: int| 0 <= m < sc.len() && sc[m] == srt[k];
        assert(sc[m].1 == out[k]);
    }
    assert forall|i: int|
        #![trigger s[i]]
        0 <= i < s.len() && matches_query(s[i], pattern) implies out.contains(s[i]) by {
        let k = choose|k: int| 0 <= k < sc.len() && sc[k].1 == s[i];
        assert(sc.contains(sc[k]));
        crate::order::lemma_sort_by_spec_contains(leq, sc, sc[k]);
        let m = choose|m: int| 0 <= m < srt.len() && srt[m] == sc[k];
        assert(out[m] == s[i]);
    }
}

/// On a snapshot with pairwise distinct ids — what a catalog guarantees —
/// no id appears twice in a search result: together with
/// [`lemma_search_sound`], every matching record appears exactly once.
pub proof fn lemma_search_exactly_once(s: Seq<AppView>, pattern: Seq<char>)
    requires
        pattern.len() > 0,
        forall|i: int, j: int| 0 <= i < j < s.len() ==> #[trigger] s[i].id != #[trigger] s[j].id,
    ensures
        forall|i: int, j: int|
            0 <= i < j < search_spec(s, pattern).len() ==> #[trigger] search_spec(s, pattern)[i].id
                != #[trigger] search_spec(s, pattern)[j].id,
{
    broadcast use vstd::seq_lib::group_to_multiset_ensures;

    let sc = scored(s, pattern);
    let leq = score_order();
    let srt = sort_by_spec(leq, sc);
    let out = search_spec(s, pattern);
    lemma_scored_unique(s, pattern);
    lemma_sort_by_spec_multiset(leq, sc);
    // distinct ids make the scored pairs pairwise distinct values
    assert forall|k1: int, k2: int| 0 <= k1 < k2 < sc.len() implies sc[k1] != sc[k2] by {
        assert(sc[k1].1.id != sc[k2].1.id);
    }
    assert(sc.no_duplicates());
    sc.lemma_multiset_has_no_duplicates();
    assert forall|x: (i64, AppView)| srt.to_multiset().contains(x) implies srt.to_multiset().count(
        x,
    ) == 1 by {
        assert(srt.to_multiset().count(x) == sc.to_multiset().count(x));
    }
    srt.lemma_multiset_has_no_duplicates_conv();
    assert forall|i: int, j: int| 0 <= i < j < out.len() implies #[trigger] out[i].id
        != #[trigger] out[j].id by {
        assert(out[i] == srt[i].1);
        assert(out[j] == srt[j].1);
        if srt[i].1.id == srt[j].1.id {
            // two positions of the sorted pairs would hold pairs of one id
            assert(srt[i] != srt[j]);
            assert(srt.contains(srt[i]));
            assert(srt.contains(srt[j]));
            crate::order::lemma_sort_by_spec_contains(leq, sc, srt[i]);
            crate::order::lemma_sort_by_spec_contains(leq, sc, srt[j]);
            let k1 = choose|k: int| 0 <= k < sc.len() && sc[k] == srt[i];
            let k2 = choose|k: int| 0 <= k < sc.len() && sc[k] == srt[j];
            assert(k1 != k2);
            assert(sc[k1].1.id != sc[k2].1.id);
        }
    }
}

/// The ranking: results come out in non-increasing score order.
pub proof fn lemma_search_ranked(s: Seq<AppView>, pattern: Seq<char>)
    requires
        pattern.len() > 0,
    ensures
        forall|i: int, j: int|
            0 <= i < j < search_spec(s, pattern).len() ==> #[trigger] skim_score(
                search_spec(s, pattern)[i].name,
                pattern,
            )->Some_0 >= #[trigger] skim_score(search_spec(s, pattern)[j].name, pattern)->Some_0,
{
    let sc = scored(s, pattern);
    let leq = score_order();
    let srt = sort_by_spec(leq, sc);
    let out = search_spec(s, pattern);
    lemma_score_order_properties();
    lemma_sort_by_spec_sorted(leq, sc);
    lemma_scored_elems(s, pattern);
    assert forall|k: int| 0 <= k < srt.len() implies skim_score(#[trigger] srt[k].1.name, pattern)
        == Option::Some(srt[k].0) by {
        assert(srt.contains(srt[k]));
        crate::order::lemma_sort_by_spec_contains(leq, sc, srt[k]);
        let m = choose|m: int| 0 <= m < sc.len() && sc[m] == srt[k];
        assert(skim_score(sc[m].1.name, pattern) == Option::Some(sc[m].0));
    }
    assert forall|i: int, j: int| 0 <= i < j < out.len() implies #[trigger] skim_score(
        out[i].name,
        pattern,
    )->Some_0 >= #[trigger] skim_score(out[j].name, pattern)->Some_0 by {
        assert(out[i] == srt[i].1);
        assert(out[j] == srt[j].1);
        assert(leq(srt[i], srt[j]));
    }
}

/// Search stability: the records of any one score keep their snapshot
/// order.  With the result pinned as a function of snapshot and query,
/// repeated calls return the identical ordering.
pub proof fn lemma_search_stable(s: Seq<AppView>, pattern: Seq<char>, score: i64)
    ensures
        sort_by_spec(score_order(), scored(s, pattern)).filter(
            |p: (i64, AppView)| p.0 == score,
        ) == scored(s, pattern).filter(|p: (i64, AppView)| p.0 == score),
{
    let keep = |p: (i64, AppView)| p.0 == score;
    let leq = score_order();
    assert forall|a: (i64, AppView), b: (i64, AppView)|
        #[trigger] keep(a) && #[trigger] keep(b) implies leq(a, b) by {}
    lemma_sort_by_spec_filter(leq, keep, scored(s, pattern));
}

/// Ranks a snapshot against a query.
pub struct SearchEngine;

impl SearchEngine {
    /// The records whose display name the fuzzy matcher accepts for
    /// `query`, best score first, equal scores in snapshot order; the
    /// whole snapshot when `query` is empty.  A whitespace query is a
    /// query like any other.
    #[verifier::loop_isolation(false)]
    pub fn filter(snapshot: &Vec<ApplicationEntry>, query: &str) -> (out: Vec<ApplicationEntry>)
        ensures
            out.deep_view() == search_spec(snapshot.deep_view(), query@),
    {
        let ghost sv = snapshot.deep_view();
        let ghost q = query@;
        if query.is_empty() {
            let mut out: Vec<ApplicationEntry> = Vec::new();
            let mut i: usize = 0;
            while i < snapshot.len()
                invariant
                    i <= snapshot@.len(),
                    out@.len() == i,
                    forall|j: int| 0 <= j < i ==> out.deep_view()[j] == sv[j],
                decreases snapshot@.len() - i,
            {
                out.push(snapshot[i].clone());
                i = i + 1;
            }
            assert(out.deep_view() =~= sv);
            return out;
        }

        // score every record, keeping the matcher's accepts in order
        let mut pairs: Vec<(i64, ApplicationEntry)> = Vec::new();
        let mut i: usize = 0;
        while i < snapshot.len()
            invariant
                i <= snapshot@.len(),
                pairs.deep_view() == scored(sv.take(i as int), q),
            decreases snapshot@.len() - i,
        {
            proof {
                assert(sv.take(i + 1).drop_last() =~= sv.take(i as int));
                assert(sv.take(i + 1).last() == sv[i as int]);
            }
            match fuzzy_match(snapshot[i].name.as_str(), query) {
                Option::Some(sc) => {
                    pairs.push((sc, snapshot[i].clone()));
                },
                Option::None => {},
            }
            assert(pairs.deep_view() =~= scored(sv.take(i + 1), q));
            i = i + 1;
        }
        proof {
            assert(sv.take(sv.len() as int) =~= sv);
        }
        let ghost pv = pairs.deep_view();

        // stable insertion sort, best score first
        let mut sorted: Vec<(i64, ApplicationEntry)> = Vec::new();
        let mut rest = pairs;
        while rest.len() > 0
            invariant
                rest@.len() <= pv.len(),
                rest.deep_view() == pv.skip(pv.len() - rest@.len()),
                sorted.deep_view() == sort_by_spec(score_order(), pv.take(pv.len() - rest@.len())),
            decreases rest@.len(),
        {
            let ghost i2 = pv.len() - rest@.len();
            let ghost prev = rest.deep_view();
            let ghost prev_raw = rest@;
            let ghost odv = sorted.deep_view();
            let ghost out_raw = sorted@;
            let x = rest.remove(0);
            proof {
                assert(x.deep_view() == prev[0]);
                assert(x.deep_view() == pv[i2]);
                assert(rest@ == prev_raw.remove(0));
                assert forall|j: int| 0 <= j < rest@.len() implies rest.deep_view()[j] == pv.skip(
                    i2 + 1,
                )[j] by {
                    assert(rest@[j] == prev_raw[j + 1]);
                    assert(prev[j + 1] == pv.skip(i2)[j + 1]);
                }
                assert(rest.deep_view() =~= pv.skip(i2 + 1));
                assert(pv.take(i2 + 1).drop_last() =~= pv.take(i2));
                assert(pv.take(i2 + 1).last() == pv[i2]);
            }
            let mut k: usize = sorted.len();
            let mut searching = true;
            while searching
                invariant
                    k <= sorted@.len(),
                    forall|j: int| k <= j < odv.len() ==> !(#[trigger] odv[j].0 >= x.0),
                    !searching ==> k == 0 || odv[k - 1].0 >= x.0,
                decreases k as int + if searching {
                    1int
                } else {
                    0int
                },
            {
                if k == 0 {
                    searching = false;
                } else {
                    if sorted[k - 1].0 >= x.0 {
                        searching = false;
                    } else {
                        proof {
                            assert(odv[k - 1].0 == sorted@[k - 1].0);
                        }
                        k = k - 1;
                    }
                }
            }
            sorted.insert(k, x);
            proof {
                let leq = score_order();
                lemma_insert_sorted_split(leq, odv, x.deep_view(), k as int);
                out_raw.insert_ensures(k as int, x);
                assert forall|j: int| 0 <= j < sorted.deep_view().len() implies sorted.deep_view()[j]
                    == (odv.take(k as int) + seq![x.deep_view()] + odv.skip(k as int))[j] by {
                    if j < k {
                        assert(sorted@[j] == out_raw[j]);
                    } else if j == k {
                        assert(sorted@[j] == x);
                    } else {
                        assert(sorted@[j] == out_raw[j - 1]);
                    }
                }
                assert(sorted.deep_view() =~= odv.take(k as int) + seq![x.deep_view()] + odv.skip(
                    k as int,
                ));
                assert(sorted.deep_view() == insert_sorted(leq, odv, x.deep_view()));
            }
            assert(sorted.deep_view() == sort_by_spec(score_order(), pv.take(i2 + 1)));
        }
        proof {
            assert(pv.take(pv.len() as int) =~= pv);
        }

        // strip the scores
        let ghost sorted_v = sorted.deep_view();
        let mut out: Vec<ApplicationEntry> = Vec::new();
        let mut rest2 = sorted;
        while rest2.len() > 0
            invariant
                rest2@.len() <= sorted_v.len(),
                rest2.deep_view() == sorted_v.skip(sorted_v.len() - rest2@.len()),
                out@.len() == sorted_v.len() - rest2@.len(),
                forall|j: int| 0 <= j < out@.len() ==> out.deep_view()[j] == sorted_v[j].1,
            decreases rest2@.len(),
        {
            let ghost i3 = sorted_v.len() - rest2@.len();
            let ghost prev = rest2.deep_view();
            let ghost prev_raw = rest2@;
            let p = rest2.remove(0);
            proof {
                assert(p.deep_view() == prev[0]);
                assert(p.deep_view() == sorted_v[i3]);
                assert(rest2@ == prev_raw.remove(0));
                assert forall|j: int| 0 <= j < rest2@.len() implies rest2.deep_view()[j]
                    == sorted_v.skip(i3 + 1)[j] by {
                    assert(rest2@[j] == prev_raw[j + 1]);
                    assert(prev[j + 1] == sorted_v.skip(i3)[j + 1]);
                }
                assert(rest2.deep_view() =~= sorted_v.skip(i3 + 1));
            }
            let (_, rec) = p;
            proof {
                assert(rec.deep_view() == p.deep_view().1);
            }
            let ghost out_raw_before = out@;
            let ghost out_before = out.deep_view();
            out.push(rec);
            proof {
                assert(out@ == out_raw_before.push(rec));
                assert forall|j: int| 0 <= j < out@.len() implies out.deep_view()[j]
                    == sorted_v[j].1 by {
                    assert(out.deep_view()[j] == out@[j].deep_view());
                    if j < i3 {
                        assert(out@[j] == out_raw_before[j]);
                        assert(out_before[j] == out_raw_before[j].deep_view());
                        assert(out_before[j] == sorted_v[j].1);
                    } else {
                        assert(out@[j] == rec);
                    }
                }
            }
        }
        proof {
            assert(out.deep_view() =~= sorted_v.map_values(|p: (i64, AppView)| p.1));
        }
        out
    }
}

} // verus!
