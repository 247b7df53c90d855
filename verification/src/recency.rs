//! Launch-count bookkeeping and the "recently used" ranking.
//!
//! The tracker owns the persisted list of `(app_id, launch_count)`
//! entries.  Recording a launch bumps the count of the entry, saturating
//! at the largest representable count, or appends a fresh entry with
//! count one.  The ranked view joins the entries against a catalog
//! snapshot: best-counted first, ties in store order, and entries whose
//! application has left the catalog are silently dropped.

use vstd::prelude::*;
use vstd::relations::{strongly_connected, transitive};

use crate::model::{AppView, ApplicationEntry};
use crate::order::{
    insert_sorted, lemma_insert_sorted_split, sort_by_spec,
};

verus! {

/// One persisted recency entry.
#[derive(Debug)]
pub struct RecentApplication {
    pub app_id: String,
    /// How often the application was launched; saturating, never wraps.
    pub launch_count: u32,
}

/// Mathematical model of a [`RecentApplication`].
#[verifier::ext_equal]
pub ghost struct RecentView {
    pub app_id: Seq<char>,
    pub launch_count: u32,
}

impl View for RecentApplication {
    type V = RecentView;

    open spec fn view(&self) -> RecentView {
        RecentView { app_id: self.app_id@, launch_count: self.launch_count }
    }
}

impl DeepView for RecentApplication {
    type V = RecentView;

    open spec fn deep_view(&self) -> RecentView {
        self.view()
    }
}

impl Clone for RecentApplication {
    fn clone(&self) -> (r: Self)
        ensures
            r@ == self@,
    {
        RecentApplication { app_id: self.app_id.clone(), launch_count: self.launch_count }
    }
}

/// Index of the first entry carrying the id, `-1` when there is none.
pub open spec fn find_id(s: Seq<RecentView>, id: Seq<char>) -> int
    decreases s.len(),
{
    if s.len() == 0 {
        -1
    } else if s[0].app_id == id {
        0
    } else {
        let r = find_id(s.drop_first(), id);
        if r == -1 {
            -1
        } else {
            r + 1
        }
    }
}

pub proof fn lemma_find_id_in_range(s: Seq<RecentView>, id: Seq<char>)
    ensures
        find_id(s, id) == -1 || (0 <= find_id(s, id) < s.len() && s[find_id(s, id)].app_id == id),
    decreases s.len(),
{
    if s.len() > 0 && s[0].app_id != id {
        lemma_find_id_in_range(s.drop_first(), id);
    }
}

proof fn lemma_find_id_skip(s: Seq<RecentView>, id: Seq<char>, i: int)
    requires
        0 <= i <= s.len(),
        forall|k: int| 0 <= k < i ==> s[k].app_id != id,
    ensures
        find_id(s, id) == if find_id(s.skip(i), id) == -1 {
            -1int
        } else {
            i + find_id(s.skip(i), id)
        },
    decreases i,
{
    lemma_find_id_in_range(s.skip(i), id);
    if i == 0 {
        assert(s.skip(0) =~= s);
    } else {
        assert(s[0].app_id != id);
        assert(s.drop_first().skip(i - 1) =~= s.skip(i));
        assert forall|k: int| 0 <= k < i - 1 implies s.drop_first()[k].app_id != id by {
            assert(s.drop_first()[k] == s[k + 1]);
        }
        lemma_find_id_skip(s.drop_first(), id, i - 1);
    }
}

/// A count one higher, stopping at the largest representable value.
pub open spec fn bumped(c: u32) -> u32 {
    if c < u32::MAX {
        (c + 1) as u32
    } else {
        c
    }
}

/// What recording a launch does to the entry list.
pub open spec fn record_launch_spec(s: Seq<RecentView>, id: Seq<char>) -> Seq<RecentView> {
    let j = find_id(s, id);
    if j == -1 {
        s.push(RecentView { app_id: id, launch_count: 1 })
    } else {
        s.update(j, RecentView { app_id: s[j].app_id, launch_count: bumped(s[j].launch_count) })
    }
}

/// Recency order: more launches first; ties keep store order when
/// sorted stably.
pub open spec fn count_order() -> spec_fn(RecentView, RecentView) -> bool {
    |a: RecentView, b: RecentView| a.launch_count >= b.launch_count
}

pub proof fn lemma_count_order_properties()
    ensures
        strongly_connected(count_order()),
        transitive(count_order()),
{
    let leq = count_order();
    assert forall|a: RecentView, b: RecentView| #[trigger] leq(a, b) || #[trigger] leq(b, a) by {}
    assert forall|a: RecentView, b: RecentView, c: RecentView|
        #[trigger] leq(a, b) && #[trigger] leq(b, c) implies leq(a, c) by {}
}

/// The first snapshot record carrying the id.
pub open spec fn lookup_record(s: Seq<AppView>, id: Seq<char>) -> Option<AppView>
    decreases s.len(),
{
    if s.len() == 0 {
        Option::None
    } else if s[0].id == id {
        Option::Some(s[0])
    } else {
        lookup_record(s.drop_first(), id)
    }
}

pub proof fn lemma_lookup_record_contains(s: Seq<AppView>, id: Seq<char>)
    ensures
        lookup_record(s, id) matches Option::Some(v) ==> s.contains(v) && v.id == id,
    decreases s.len(),
{
    if s.len() > 0 && s[0].id != id {
        lemma_lookup_record_contains(s.drop_first(), id);
        if lookup_record(s, id) is Some {
            let v = lookup_record(s, id)->Some_0;
            let k = choose|k: int| 0 <= k < s.drop_first().len() && s.drop_first()[k] == v;
            assert(s[k + 1] == v);
        }
    }
}

proof fn lemma_lookup_record_skip(s: Seq<AppView>, id: Seq<char>, i: int)
    requires
        0 <= i <= s.len(),
        forall|k: int| 0 <= k < i ==> s[k].id != id,
    ensures
        lookup_record(s, id) == lookup_record(s.skip(i), id),
    decreases i,
{
    if i == 0 {
        assert(s.skip(0) =~= s);
    } else {
        assert(s.drop_first().skip(i - 1) =~= s.skip(i));
        lemma_lookup_record_skip(s.drop_first(), id, i - 1);
    }
}

/// Entries ordered by descending count, joined against the snapshot;
/// entries whose application is gone are dropped.
pub open spec fn join_records(entries: Seq<RecentView>, s: Seq<AppView>) -> Seq<AppView>
    decreases entries.len(),
{
    if entries.len() == 0 {
        Seq::empty()
    } else {
        join_records(entries.drop_last(), s) + match lookup_record(s, entries.last().app_id) {
            Option::Some(v) => seq![v],
            Option::None => Seq::empty(),
        }
    }
}

/// What [`RecencyTracker::ranked`] returns.
pub open spec fn ranked_spec(entries: Seq<RecentView>, s: Seq<AppView>) -> Seq<AppView> {
    join_records(sort_by_spec(count_order(), entries), s)
}

/// The persisted mapping from application id to launch count.
#[derive(Debug)]
pub struct RecencyTracker {
    entries: Vec<RecentApplication>,
}

impl View for RecencyTracker {
    type V = Seq<RecentView>;

    closed spec fn view(&self) -> Seq<RecentView> {
        self.entries.deep_view()
    }
}

impl RecencyTracker {
    /// A tracker with no recorded launches; also what a failed store
    /// read degrades to.
    pub fn new() -> (t: RecencyTracker)
        ensures
            t@ == Seq::<RecentView>::empty(),
    {
        let t = RecencyTracker { entries: Vec::new() };
        proof {
            assert(t.entries.deep_view() =~= Seq::<RecentView>::empty());
        }
        t
    }

    /// Adopts the entry list read from the persisted store.
    pub fn from_entries(entries: Vec<RecentApplication>) -> (t: RecencyTracker)
        ensures
            t@ == entries.deep_view(),
    {
        RecencyTracker { entries }
    }

    /// The entry list, for writing back to the persisted store.
    pub fn entries(&self) -> (r: &Vec<RecentApplication>)
        ensures
            r.deep_view() == self@,
    {
        &self.entries
    }

    /// Records one launch of the application: the first entry of that id
    /// is bumped by one, saturating at the largest representable count;
    /// a missing entry is appended with count one.  No other entry
    /// changes.
    #[verifier::loop_isolation(false)]
    pub fn record_launch(&mut self, app_id: &str)
        ensures
            final(self)@ == record_launch_spec(old(self)@, app_id@),
    {
        let ghost sv = self@;
        let ghost id = app_id@;
        let n = self.entries.len();
        let mut j: usize = 0;
        while j < n
            invariant
                j <= n,
                n == sv.len(),
                self@ == sv,
                self.entries@.len() == n,
                forall|k: int| 0 <= k < j ==> sv[k].app_id != id,
            decreases n - j,
        {
            proof {
                lemma_find_id_skip(sv, id, j as int);
            }
            let hit = crate::text::str_eq(self.entries[j].app_id.as_str(), app_id);
            if hit {
                proof {
                    assert(sv.skip(j as int)[0] == sv[j as int]);
                }
                let ghost old_raw = self.entries@;
                let c = self.entries[j].launch_count;
                let nc = if c < u32::MAX {
                    c + 1
                } else {
                    c
                };
                let id_kept = self.entries[j].app_id.clone();
                let replacement = RecentApplication { app_id: id_kept, launch_count: nc };
                let _ = self.entries.remove(j);
                self.entries.insert(j, replacement);
                proof {
                    old_raw.insert_ensures(j as int, replacement);
                    assert(find_id(sv, id) == j);
                    assert forall|k: int| 0 <= k < self.entries@.len() implies self
                        .entries
                        .deep_view()[k] == record_launch_spec(sv, id)[k] by {
                        if k < j {
                            assert(self.entries@[k] == old_raw[k]);
                        } else if k == j {
                            assert(self.entries@[k] == replacement);
                        } else {
                            assert(self.entries@[k] == old_raw[k]);
                        }
                    }
                    assert(self.entries.deep_view() =~= record_launch_spec(sv, id));
                }
                return ;
            }
            proof {
                assert(sv.skip(j as int)[0] == sv[j as int]);
            }
            j = j + 1;
        }
        proof {
            lemma_find_id_skip(sv, id, n as int);
            assert(sv.skip(n as int).len() == 0);
            assert(find_id(sv, id) == -1);
        }
        let ghost old_raw = self.entries@;
        let fresh = RecentApplication { app_id: String::from_str(app_id), launch_count: 1 };
        self.entries.push(fresh);
        proof {
            assert(self.entries@ == old_raw.push(fresh));
            assert forall|k: int| 0 <= k < self.entries@.len() implies self.entries.deep_view()[k]
                == record_launch_spec(sv, id)[k] by {
                if k < old_raw.len() {
                    assert(self.entries@[k] == old_raw[k]);
                } else {
                    assert(self.entries@[k] == fresh);
                }
            }
            assert(self.entries.deep_view() =~= record_launch_spec(sv, id));
        }
    }

    /// The records of the remembered applications that are still in the
    /// snapshot, most-launched first, ties in store order.
    #[verifier::loop_isolation(false)]
    pub fn ranked(&self, snapshot: &Vec<ApplicationEntry>) -> (out: Vec<ApplicationEntry>)
        ensures
            out.deep_view() == ranked_spec(self@, snapshot.deep_view()),
    {
        let ghost ev = self@;
        let ghost sv = snapshot.deep_view();

        // copy the entries, then sort by descending count
        let mut entries: Vec<RecentApplication> = Vec::new();
        let mut i: usize = 0;
        while i < self.entries.len()
            invariant
                i <= self.entries@.len(),
                entries@.len() == i,
                forall|k: int| 0 <= k < i ==> entries.deep_view()[k] == ev[k],
            decreases self.entries@.len() - i,
        {
            entries.push(self.entries[i].clone());
            i = i + 1;
        }
        proof {
            assert(entries.deep_view() =~= ev);
        }

        let ghost pv = entries.deep_view();
        let mut sorted: Vec<RecentApplication> = Vec::new();
        let mut rest = entries;
        while rest.len() > 0
            invariant
                rest@.len() <= pv.len(),
                rest.deep_view() == pv.skip(pv.len() - rest@.len()),
                sorted.deep_view() == sort_by_spec(count_order(), pv.take(pv.len() - rest@.len())),
            decreases rest@.len(),
        {
            let ghost i2 = pv.len() - rest@.len();
            let ghost prev = rest.deep_view();
            let ghost prev_raw = rest@;
            let ghost odv = sorted.deep_view();
            let ghost out_raw = sorted@;
            let x = rest.remove(0);
            proof {
                assert(x@ == prev[0]);
                assert(x@ == pv[i2]);
                assert(rest@ == prev_raw.remove(0));
                assert forall|k: int| 0 <= k < rest@.len() implies rest.deep_view()[k] == pv.skip(
                    i2 + 1,
                )[k] by {
                    assert(rest@[k] == prev_raw[k + 1]);
                    assert(prev[k + 1] == pv.skip(i2)[k + 1]);
                }
                assert(rest.deep_view() =~= pv.skip(i2 + 1));
                assert(pv.take(i2 + 1).drop_last() =~= pv.take(i2));
                assert(pv.take(i2 + 1).last() == pv[i2]);
            }
            let mut k: usize = sorted.len();
            let mut searching = true;
            while searching
                invariant
                    k <= sorted@.len(),
                    forall|m: int|
                        k <= m < odv.len() ==> !(#[trigger] odv[m].launch_count >= x@.launch_count),
                    !searching ==> k == 0 || odv[k - 1].launch_count >= x@.launch_count,
                decreases k as int + if searching {
                    1int
                } else {
                    0int
                },
            {
                if k == 0 {
                    searching = false;
                } else {
                    if sorted[k - 1].launch_count >= x.launch_count {
                        searching = false;
                    } else {
                        proof {
                            assert(odv[k - 1].launch_count == sorted@[k - 1]@.launch_count);
                        }
                        k = k - 1;
                    }
                }
            }
            sorted.insert(k, x);
            proof {
                let leq = count_order();
                lemma_insert_sorted_split(leq, odv, x@, k as int);
                out_raw.insert_ensures(k as int, x);
                assert forall|m: int| 0 <= m < sorted.deep_view().len() implies sorted.deep_view()[m]
                    == (odv.take(k as int) + seq![x@] + odv.skip(k as int))[m] by {
                    if m < k {
                        assert(sorted@[m] == out_raw[m]);
                    } else if m == k {
                        assert(sorted@[m] == x);
                    } else {
                        assert(sorted@[m] == out_raw[m - 1]);
                    }
                }
                assert(sorted.deep_view() =~= odv.take(k as int) + seq![x@] + odv.skip(k as int));
                assert(sorted.deep_view() == insert_sorted(leq, odv, x@));
            }
            assert(sorted.deep_view() == sort_by_spec(count_order(), pv.take(i2 + 1)));
        }
        proof {
            assert(pv.take(pv.len() as int) =~= pv);
        }

        // join against the snapshot
        let ghost qv = sorted.deep_view();
        let mut out: Vec<ApplicationEntry> = Vec::new();
        let mut i3: usize = 0;
        while i3 < sorted.len()
            invariant
                i3 <= sorted@.len(),
                sorted.deep_view() == qv,
                sorted@.len() == qv.len(),
                out.deep_view() == join_records(qv.take(i3 as int), sv),
            decreases sorted@.len() - i3,
        {
            proof {
                assert(qv.take(i3 + 1).drop_last() =~= qv.take(i3 as int));
                assert(qv.take(i3 + 1).last() == qv[i3 as int]);
            }
            match Self::find_record(snapshot, &sorted[i3].app_id) {
                Option::Some(rec) => {
                    out.push(rec);
                },
                Option::None => {},
            }
            assert(out.deep_view() =~= join_records(qv.take(i3 + 1), sv));
            i3 = i3 + 1;
        }
        proof {
            assert(qv.take(qv.len() as int) =~= qv);
        }
        out
    }

    /// Finds the first snapshot record with the id, if any.
    #[verifier::loop_isolation(false)]
    fn find_record(snapshot: &Vec<ApplicationEntry>, app_id: &String) -> (r: Option<
        ApplicationEntry,
    >)
        ensures
            match r {
                Option::Some(rec) => lookup_record(snapshot.deep_view(), app_id@)
                    == Option::Some(rec@),
                Option::None => lookup_record(snapshot.deep_view(), app_id@) is None,
            },
    {
        let ghost sv = snapshot.deep_view();
        let mut j: usize = 0;
        while j < snapshot.len()
            invariant
                j <= snapshot@.len(),
                forall|k: int| 0 <= k < j ==> sv[k].id != app_id@,
            decreases snapshot@.len() - j,
        {
            proof {
                lemma_lookup_record_skip(sv, app_id@, j as int);
                assert(sv.skip(j as int)[0] == sv[j as int]);
            }
            if snapshot[j].id.eq(app_id) {
                return Option::Some(snapshot[j].clone());
            }
            j = j + 1;
        }
        proof {
            lemma_lookup_record_skip(sv, app_id@, j as int);
        }
        Option::None
    }
}

/// Recency-catalog join: a ranked record always comes from the snapshot.
pub proof fn lemma_ranked_in_snapshot(entries: Seq<RecentView>, s: Seq<AppView>)
    ensures
        forall|k: int|
            #![trigger ranked_spec(entries, s)[k]]
            0 <= k < ranked_spec(entries, s).len() ==> s.contains(ranked_spec(entries, s)[k]),
{
    lemma_join_in_snapshot(sort_by_spec(count_order(), entries), s);
}

proof fn lemma_join_in_snapshot(entries: Seq<RecentView>, s: Seq<AppView>)
    ensures
        forall|k: int|
            #![trigger join_records(entries, s)[k]]
            0 <= k < join_records(entries, s).len() ==> s.contains(join_records(entries, s)[k]),
    decreases entries.len(),
{
    if entries.len() == 0 {
    } else {
        let t = entries.drop_last();
        lemma_join_in_snapshot(t, s);
        assert forall|k: int|
            #![trigger join_records(entries, s)[k]]
            0 <= k < join_records(entries, s).len() implies s.contains(
            join_records(entries, s)[k],
        ) by {
            if k < join_records(t, s).len() {
                assert(join_records(entries, s)[k] == join_records(t, s)[k]);
            } else {
                lemma_lookup_record_contains(s, entries.last().app_id);
            }
        }
    }
}

/// Recency monotonicity, one step: recording a launch never lowers any
/// count, and a count never moves past the largest representable value.
pub proof fn lemma_record_launch_monotonic(s: Seq<RecentView>, id: Seq<char>, k: int)
    requires
        0 <= k < s.len(),
    ensures
        record_launch_spec(s, id).len() >= s.len(),
        record_launch_spec(s, id)[k].app_id == s[k].app_id,
        record_launch_spec(s, id)[k].launch_count >= s[k].launch_count,
        record_launch_spec(s, id)[k].launch_count <= u32::MAX,
{
    lemma_find_id_in_range(s, id);
}

/// The entry list after a whole sequence of recorded launches.
pub open spec fn record_all_spec(s: Seq<RecentView>, ids: Seq<Seq<char>>) -> Seq<RecentView>
    decreases ids.len(),
{
    if ids.len() == 0 {
        s
    } else {
        record_all_spec(record_launch_spec(s, ids[0]), ids.drop_first())
    }
}

/// Recency monotonicity: across any sequence of recorded launches, an
/// entry keeps its id, its count never decreases, and it never moves
/// past the largest representable value — it saturates, never wraps.
pub proof fn lemma_record_all_monotonic(s: Seq<RecentView>, ids: Seq<Seq<char>>, k: int)
    requires
        0 <= k < s.len(),
    ensures
        record_all_spec(s, ids).len() >= s.len(),
        record_all_spec(s, ids)[k].app_id == s[k].app_id,
        record_all_spec(s, ids)[k].launch_count >= s[k].launch_count,
        record_all_spec(s, ids)[k].launch_count <= u32::MAX,
    decreases ids.len(),
{
    if ids.len() == 0 {
    } else {
        lemma_record_launch_monotonic(s, ids[0], k);
        lemma_record_all_monotonic(record_launch_spec(s, ids[0]), ids.drop_first(), k);
    }
}

} // verus!
