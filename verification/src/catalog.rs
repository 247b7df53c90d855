//! The catalog: the authoritative, deduplicated, name-sorted snapshot of
//! application records for the current session.
//!
//! A snapshot is rebuilt on demand from raw desktop-entry data and is
//! immutable between rebuilds; readers only ever see a complete snapshot.
//! The order is the codepoint-wise lexicographic order on display names:
//! locale-agnostic, deterministic, and stable — records with equal names
//! keep the order the entry source produced.

use vstd::prelude::*;
use vstd::relations::{sorted_by, strongly_connected, transitive};

use crate::model::{AppView, ApplicationEntry};
use crate::order::{
    insert_sorted, lemma_insert_sorted_split, lemma_sort_by_spec_filter, lemma_sort_by_spec_multiset,
    lemma_sort_by_spec_sorted, sort_by_spec,
};
use crate::source::{normalize, normalize_spec, RawEntry, RawView};
use crate::text::{lemma_lex_le_refl, lemma_lex_le_total, lemma_lex_le_trans, lex_le, str_le};

verus! {

/// The catalog order: records compare by display name.
pub open spec fn name_order() -> spec_fn(AppView, AppView) -> bool {
    |a: AppView, b: AppView| lex_le(a.name, b.name)
}

/// The name order compares any two records and is transitive, so a
/// sequence sorted under it is totally ordered.
pub proof fn lemma_name_order_properties()
    ensures
        strongly_connected(name_order()),
        transitive(name_order()),
{
    let leq = name_order();
    assert forall|a: AppView, b: AppView| #[trigger] leq(a, b) || #[trigger] leq(b, a) by {
        lemma_lex_le_total(a.name, b.name);
    }
    assert forall|a: AppView, b: AppView, c: AppView|
        #[trigger] leq(a, b) && #[trigger] leq(b, c) implies leq(a, c) by {
        lemma_lex_le_trans(a.name, b.name, c.name);
    }
}

/// What a rebuilt snapshot holds: the normalized records of the raw
/// entries, sorted by display name.
pub open spec fn catalog_spec(
    s: Seq<RawView>,
    locale: Option<Seq<char>>,
    desktop: Option<Seq<char>>,
    is_flatpak: bool,
) -> Seq<AppView> {
    sort_by_spec(name_order(), normalize_spec(s, locale, desktop, is_flatpak))
}

/// Sorts records by display name: stable insertion sort.
#[verifier::loop_isolation(false)]
fn sort_records(input: Vec<ApplicationEntry>) -> (out: Vec<ApplicationEntry>)
    ensures
        out.deep_view() == sort_by_spec(name_order(), input.deep_view()),
{
    let ghost sv = input.deep_view();
    let mut out: Vec<ApplicationEntry> = Vec::new();
    let mut rest = input;
    while rest.len() > 0
        invariant
            rest@.len() <= sv.len(),
            rest.deep_view() == sv.skip(sv.len() - rest@.len()),
            out.deep_view() == sort_by_spec(name_order(), sv.take(sv.len() - rest@.len())),
        decreases rest@.len(),
    {
        let ghost i = sv.len() - rest@.len();
        let ghost prev = rest.deep_view();
        let ghost prev_raw = rest@;
        let ghost odv = out.deep_view();
        let ghost out_raw = out@;
        let x = rest.remove(0);
        proof {
            assert(x@ == prev[0]);
            assert(x@ == sv[i]);
            assert(rest@ == prev_raw.remove(0));
            assert forall|j: int| 0 <= j < rest@.len() implies rest.deep_view()[j] == sv.skip(
                i + 1,
            )[j] by {
                assert(rest@[j] == prev_raw[j + 1]);
                assert(prev[j + 1] == sv.skip(i)[j + 1]);
            }
            assert(rest.deep_view() =~= sv.skip(i + 1));
            assert(sv.take(i + 1).drop_last() =~= sv.take(i));
            assert(sv.take(i + 1).last() == sv[i]);
        }
        // scan from the back for the insertion point
        let mut k: usize = out.len();
        let mut searching = true;
        while searching
            invariant
                k <= out@.len(),
                forall|j: int| k <= j < odv.len() ==> !lex_le(#[trigger] odv[j].name, x@.name),
                !searching ==> k == 0 || lex_le(odv[k - 1].name, x@.name),
            decreases k as int + if searching {
                1int
            } else {
                0int
            },
        {
            if k == 0 {
                searching = false;
            } else {
                let le = str_le(out[k - 1].name.as_str(), x.name.as_str());
                if le {
                    searching = false;
                } else {
                    k = k - 1;
                }
            }
        }
        out.insert(k, x);
        proof {
            let leq = name_order();
            lemma_insert_sorted_split(leq, odv, x@, k as int);
            out_raw.insert_ensures(k as int, x);
            assert forall|j: int| 0 <= j < out.deep_view().len() implies out.deep_view()[j] == (
            odv.take(k as int) + seq![x@] + odv.skip(k as int))[j] by {
                if j < k {
                    assert(out@[j] == out_raw[j]);
                } else if j == k {
                    assert(out@[j] == x);
                } else {
                    assert(out@[j] == out_raw[j - 1]);
                }
            }
            assert(out.deep_view() =~= odv.take(k as int) + seq![x@] + odv.skip(k as int));
            assert(out.deep_view() == insert_sorted(leq, odv, x@));
        }
        assert(out.deep_view() == sort_by_spec(name_order(), sv.take(i + 1)));
    }
    proof {
        assert(sv.take(sv.len() as int) =~= sv);
    }
    out
}

/// The deduplicated, name-sorted collection of application records.
#[derive(Debug)]
pub struct Catalog {
    records: Vec<ApplicationEntry>,
    fresh: bool,
}

impl View for Catalog {
    type V = Seq<AppView>;

    closed spec fn view(&self) -> Seq<AppView> {
        self.records.deep_view()
    }
}

impl Catalog {
    /// A catalog that never emitted a snapshot is stale: the next read
    /// must trigger a rebuild.
    pub closed spec fn spec_is_stale(&self) -> bool {
        !self.fresh
    }

    /// An empty, stale catalog.
    pub fn new() -> (c: Catalog)
        ensures
            c@ == Seq::<AppView>::empty(),
            c.spec_is_stale(),
    {
        let c = Catalog { records: Vec::new(), fresh: false };
        proof {
            assert(c.records.deep_view() =~= Seq::<AppView>::empty());
        }
        c
    }

    /// Whether the snapshot may be out of date with the entry source.
    pub fn is_stale(&self) -> (b: bool)
        ensures
            b == self.spec_is_stale(),
    {
        !self.fresh
    }

    /// Marks the snapshot stale; the records stay readable until the
    /// next rebuild replaces them.
    pub fn invalidate(&mut self)
        ensures
            final(self)@ == old(self)@,
            final(self).spec_is_stale(),
    {
        self.fresh = false;
    }

    /// The last built snapshot; empty before the first rebuild.
    pub fn current(&self) -> (r: &Vec<ApplicationEntry>)
        ensures
            r.deep_view() == self@,
    {
        &self.records
    }

    /// Replaces the snapshot with the normalized, name-sorted records of
    /// the raw entries.  The output is a function of the inputs alone, so
    /// rebuilding twice from the same data gives the same snapshot; it is
    /// sorted by display name; and records with equal names keep the
    /// order of `entries`.
    pub fn rebuild(
        &mut self,
        entries: Vec<RawEntry>,
        locale: &Option<String>,
        desktop: &Option<String>,
        is_flatpak: bool,
    )
        ensures
            final(self)@ == catalog_spec(
                entries.deep_view(),
                locale.deep_view(),
                desktop.deep_view(),
                is_flatpak,
            ),
            !final(self).spec_is_stale(),
            sorted_by(final(self)@, name_order()),
    {
        let records = normalize(entries, locale, desktop, is_flatpak);
        self.records = sort_records(records);
        self.fresh = true;
        proof {
            lemma_name_order_properties();
            lemma_sort_by_spec_sorted(name_order(), records.deep_view());
        }
    }
}

/// The snapshot is a permutation of the normalized records: sorting loses
/// nothing and invents nothing.
pub proof fn lemma_catalog_permutation(s: Seq<AppView>)
    ensures
        sort_by_spec(name_order(), s).to_multiset() == s.to_multiset(),
        sort_by_spec(name_order(), s).len() == s.len(),
{
    lemma_sort_by_spec_multiset(name_order(), s);
}

/// Sorting keeps ids pairwise distinct, so a snapshot built from
/// deduplicated records holds exactly one record per id.
pub proof fn lemma_sort_preserves_unique_ids(s: Seq<AppView>)
    requires
        forall|i: int, j: int| 0 <= i < j < s.len() ==> #[trigger] s[i].id != #[trigger] s[j].id,
    ensures
        forall|i: int, j: int|
            0 <= i < j < sort_by_spec(name_order(), s).len() ==> #[trigger] sort_by_spec(
                name_order(),
                s,
            )[i].id != #[trigger] sort_by_spec(name_order(), s)[j].id,
{
    broadcast use vstd::seq_lib::group_to_multiset_ensures;

    let leq = name_order();
    let srt = sort_by_spec(leq, s);
    lemma_sort_by_spec_multiset(leq, s);
    assert forall|i: int, j: int| 0 <= i < j < s.len() implies s[i] != s[j] by {
        assert(s[i].id != s[j].id);
    }
    assert(s.no_duplicates());
    s.lemma_multiset_has_no_duplicates();
    assert forall|x: AppView| srt.to_multiset().contains(x) implies srt.to_multiset().count(x)
        == 1 by {
        assert(srt.to_multiset().count(x) == s.to_multiset().count(x));
    }
    srt.lemma_multiset_has_no_duplicates_conv();
    assert forall|i: int, j: int| 0 <= i < j < srt.len() implies #[trigger] srt[i].id
        != #[trigger] srt[j].id by {
        if srt[i].id == srt[j].id {
            assert(srt[i] != srt[j]);
            assert(srt.contains(srt[i]));
            assert(srt.contains(srt[j]));
            crate::order::lemma_sort_by_spec_contains(leq, s, srt[i]);
            crate::order::lemma_sort_by_spec_contains(leq, s, srt[j]);
            let k1 = choose|k: int| 0 <= k < s.len() && s[k] == srt[i];
            let k2 = choose|k: int| 0 <= k < s.len() && s[k] == srt[j];
            assert(k1 != k2);
            assert(s[k1].id != s[k2].id);
        }
    }
}

/// Dedup invariant at the snapshot: a rebuilt catalog holds pairwise
/// distinct ids — the one survivor per id that normalization kept.
pub proof fn lemma_catalog_unique_ids(
    s: Seq<RawView>,
    locale: Option<Seq<char>>,
    desktop: Option<Seq<char>>,
    is_flatpak: bool,
)
    ensures
        forall|i: int, j: int|
            0 <= i < j < catalog_spec(s, locale, desktop, is_flatpak).len() ==> #[trigger]
            catalog_spec(s, locale, desktop, is_flatpak)[i].id != #[trigger] catalog_spec(
                s,
                locale,
                desktop,
                is_flatpak,
            )[j].id,
{
    crate::source::lemma_dedup_unique_ids(
        crate::source::vis_map(s, locale, desktop, is_flatpak),
    );
    lemma_sort_preserves_unique_ids(normalize_spec(s, locale, desktop, is_flatpak));
}

/// Record invariant at the snapshot: every record of a rebuilt catalog
/// is well-formed.
pub proof fn lemma_catalog_wf(
    s: Seq<RawView>,
    locale: Option<Seq<char>>,
    desktop: Option<Seq<char>>,
    is_flatpak: bool,
)
    ensures
        forall|k: int|
            0 <= k < catalog_spec(s, locale, desktop, is_flatpak).len() ==> (#[trigger]
            catalog_spec(s, locale, desktop, is_flatpak)[k]).wf(),
{
    let n = normalize_spec(s, locale, desktop, is_flatpak);
    let leq = name_order();
    crate::source::lemma_normalize_wf(s, locale, desktop, is_flatpak);
    assert forall|k: int| 0 <= k < sort_by_spec(leq, n).len() implies (#[trigger] sort_by_spec(
        leq,
        n,
    )[k]).wf() by {
        assert(sort_by_spec(leq, n).contains(sort_by_spec(leq, n)[k]));
        crate::order::lemma_sort_by_spec_contains(leq, n, sort_by_spec(leq, n)[k]);
        let m = choose|m: int| 0 <= m < n.len() && n[m] == sort_by_spec(leq, n)[k];
        assert(n[m].wf());
    }
}

/// Stability of the catalog order: for any display name, the records
/// carrying that name appear in the snapshot exactly as the entry source
/// ordered them.
pub proof fn lemma_catalog_stable(s: Seq<AppView>, name: Seq<char>)
    ensures
        sort_by_spec(name_order(), s).filter(|v: AppView| v.name == name) == s.filter(
            |v: AppView| v.name == name,
        ),
{
    let keep = |v: AppView| v.name == name;
    let leq = name_order();
    assert forall|a: AppView, b: AppView| #[trigger] keep(a) && #[trigger] keep(b) implies leq(
        a,
        b,
    ) by {
        lemma_lex_le_refl(name);
    }
    lemma_sort_by_spec_filter(leq, keep, s);
}

} // verus!
