//! Category partitioning of a catalog snapshot.
//!
//! The category table is static, compiled-in reference data.  A snapshot
//! offers the two pseudo-categories — all applications, and the recently
//! used ones — followed by every real category that at least one record
//! carries, in the table's fixed order.

use vstd::prelude::*;

use crate::model::{AppView, ApplicationEntry};
use crate::recency::{ranked_spec, RecencyTracker};

verus! {

/// One of the static semantic categories, or a pseudo-category.
#[derive(Clone, Copy, Debug, PartialEq, Eq, Structural)]
pub enum ApplicationCategory {
    All,
    RecentlyUsed,
    Audio,
    Video,
    Development,
    Games,
    Graphics,
    Network,
    Office,
    Science,
    Settings,
    System,
    Utility,
}

impl ApplicationCategory {
    /// The untranslated label key of the category.
    pub open spec fn display_name_spec(self) -> Seq<char> {
        match self {
            ApplicationCategory::All => "all-applications"@,
            ApplicationCategory::RecentlyUsed => "recently-used"@,
            ApplicationCategory::Audio => "audio"@,
            ApplicationCategory::Video => "video"@,
            ApplicationCategory::Development => "development"@,
            ApplicationCategory::Games => "games"@,
            ApplicationCategory::Graphics => "graphics"@,
            ApplicationCategory::Network => "network"@,
            ApplicationCategory::Office => "office"@,
            ApplicationCategory::Science => "science"@,
            ApplicationCategory::Settings => "settings"@,
            ApplicationCategory::System => "system"@,
            ApplicationCategory::Utility => "utility"@,
        }
    }

    /// The name of the icon that stands for the category.
    pub open spec fn icon_name_spec(self) -> Seq<char> {
        match self {
            ApplicationCategory::All => "open-menu-symbolic"@,
            ApplicationCategory::RecentlyUsed => "document-open-recent-symbolic"@,
            ApplicationCategory::Audio => "applications-audio-symbolic"@,
            ApplicationCategory::Video => "applications-video-symbolic"@,
            ApplicationCategory::Development => "applications-engineering-symbolic"@,
            ApplicationCategory::Games => "applications-games-symbolic"@,
            ApplicationCategory::Graphics => "applications-graphics-symbolic"@,
            ApplicationCategory::Network => "network-workgroup-symbolic"@,
            ApplicationCategory::Office => "applications-office-symbolic"@,
            ApplicationCategory::Science => "applications-science-symbolic"@,
            ApplicationCategory::Settings => "preferences-system-symbolic"@,
            ApplicationCategory::System => "applications-system-symbolic"@,
            ApplicationCategory::Utility => "applications-utilities-symbolic"@,
        }
    }

    /// The tag the category matches in a record's category set; the two
    /// pseudo-categories match no tag and have the empty string.
    pub open spec fn mime_name_spec(self) -> Seq<char> {
        match self {
            ApplicationCategory::All => ""@,
            ApplicationCategory::RecentlyUsed => ""@,
            ApplicationCategory::Audio => "Audio"@,
            ApplicationCategory::Video => "Video"@,
            ApplicationCategory::Development => "Development"@,
            ApplicationCategory::Games => "Game"@,
            ApplicationCategory::Graphics => "Graphics"@,
            ApplicationCategory::Network => "Network"@,
            ApplicationCategory::Office => "Office"@,
            ApplicationCategory::Science => "Science"@,
            ApplicationCategory::Settings => "Settings"@,
            ApplicationCategory::System => "System"@,
            ApplicationCategory::Utility => "Utility"@,
        }
    }

    /// The untranslated label key; the host shell localizes it.
    pub fn get_display_name(self) -> (r: &'static str)
        ensures
            r@ == self.display_name_spec(),
    {
        match self {
            ApplicationCategory::All => "all-applications",
            ApplicationCategory::RecentlyUsed => "recently-used",
            ApplicationCategory::Audio => "audio",
            ApplicationCategory::Video => "video",
            ApplicationCategory::Development => "development",
            ApplicationCategory::Games => "games",
            ApplicationCategory::Graphics => "graphics",
            ApplicationCategory::Network => "network",
            ApplicationCategory::Office => "office",
            ApplicationCategory::Science => "science",
            ApplicationCategory::Settings => "settings",
            ApplicationCategory::System => "system",
            ApplicationCategory::Utility => "utility",
        }
    }

    pub fn get_icon_name(self) -> (r: &'static str)
        ensures
            r@ == self.icon_name_spec(),
    {
        match self {
            ApplicationCategory::All => "open-menu-symbolic",
            ApplicationCategory::RecentlyUsed => "document-open-recent-symbolic",
            ApplicationCategory::Audio => "applications-audio-symbolic",
            ApplicationCategory::Video => "applications-video-symbolic",
            ApplicationCategory::Development => "applications-engineering-symbolic",
            ApplicationCategory::Games => "applications-games-symbolic",
            ApplicationCategory::Graphics => "applications-graphics-symbolic",
            ApplicationCategory::Network => "network-workgroup-symbolic",
            ApplicationCategory::Office => "applications-office-symbolic",
            ApplicationCategory::Science => "applications-science-symbolic",
            ApplicationCategory::Settings => "preferences-system-symbolic",
            ApplicationCategory::System => "applications-system-symbolic",
            ApplicationCategory::Utility => "applications-utilities-symbolic",
        }
    }

    pub fn get_mime_name(self) -> (r: &'static str)
        ensures
            r@ == self.mime_name_spec(),
    {
        match self {
            ApplicationCategory::All => "",
            ApplicationCategory::RecentlyUsed => "",
            ApplicationCategory::Audio => "Audio",
            ApplicationCategory::Video => "Video",
            ApplicationCategory::Development => "Development",
            ApplicationCategory::Games => "Game",
            ApplicationCategory::Graphics => "Graphics",
            ApplicationCategory::Network => "Network",
            ApplicationCategory::Office => "Office",
            ApplicationCategory::Science => "Science",
            ApplicationCategory::Settings => "Settings",
            ApplicationCategory::System => "System",
            ApplicationCategory::Utility => "Utility",
        }
    }
}

/// The static table of real categories, in presentation order.
pub open spec fn category_table() -> Seq<ApplicationCategory> {
    seq![
        ApplicationCategory::Audio,
        ApplicationCategory::Video,
        ApplicationCategory::Development,
        ApplicationCategory::Games,
        ApplicationCategory::Graphics,
        ApplicationCategory::Network,
        ApplicationCategory::Office,
        ApplicationCategory::Science,
        ApplicationCategory::Settings,
        ApplicationCategory::System,
        ApplicationCategory::Utility,
    ]
}

/// The table as a vector.
pub fn category_table_exec() -> (r: Vec<ApplicationCategory>)
    ensures
        r@ == category_table(),
{
    let mut r: Vec<ApplicationCategory> = Vec::new();
    r.push(ApplicationCategory::Audio);
    r.push(ApplicationCategory::Video);
    r.push(ApplicationCategory::Development);
    r.push(ApplicationCategory::Games);
    r.push(ApplicationCategory::Graphics);
    r.push(ApplicationCategory::Network);
    r.push(ApplicationCategory::Office);
    r.push(ApplicationCategory::Science);
    r.push(ApplicationCategory::Settings);
    r.push(ApplicationCategory::System);
    r.push(ApplicationCategory::Utility);
    proof {
        assert(r@ =~= category_table());
    }
    r
}

/// Whether a record carries the tag in its category set.
pub open spec fn has_tag(v: AppView, tag: Seq<char>) -> bool {
    v.category.contains(tag)
}

/// Whether at least one record of the snapshot carries the category's tag.
pub open spec fn category_nonempty(s: Seq<AppView>, c: ApplicationCategory) -> bool {
    exists|i: int| 0 <= i < s.len() && has_tag(#[trigger] s[i], c.mime_name_spec())
}

/// What [`CategoryIndex::available`] returns: the two pseudo-categories,
/// then every inhabited real category in table order.
pub open spec fn available_spec(s: Seq<AppView>) -> Seq<ApplicationCategory> {
    seq![ApplicationCategory::All, ApplicationCategory::RecentlyUsed] + category_table().filter(
        |c: ApplicationCategory| category_nonempty(s, c),
    )
}

/// What [`CategoryIndex::members`] returns.
pub open spec fn members_spec(
    s: Seq<AppView>,
    c: ApplicationCategory,
    entries: Seq<crate::recency::RecentView>,
) -> Seq<AppView> {
    match c {
        ApplicationCategory::All => s,
        ApplicationCategory::RecentlyUsed => ranked_spec(entries, s),
        _ => s.filter(|v: AppView| has_tag(v, c.mime_name_spec())),
    }
}

/// Derives category listings from a catalog snapshot.
pub struct CategoryIndex;

impl CategoryIndex {
    /// Decides whether a record carries the tag.
    #[verifier::loop_isolation(false)]
    fn record_has_tag(rec: &ApplicationEntry, tag: &str) -> (b: bool)
        ensures
            b == has_tag(rec@, tag@),
    {
        let mut j: usize = 0;
        while j < rec.category.len()
            invariant
                j <= rec.category@.len(),
                forall|k: int| 0 <= k < j ==> rec@.category[k] != tag@,
            decreases rec.category@.len() - j,
        {
            if crate::text::str_eq(rec.category[j].as_str(), tag) {
                assert(rec@.category[j as int] == tag@);
                return true;
            }
            j = j + 1;
        }
        assert(!rec@.category.contains(tag@));
        false
    }

    /// Decides whether any record of the snapshot carries the
    /// category's tag.
    #[verifier::loop_isolation(false)]
    fn snapshot_has_category(snapshot: &Vec<ApplicationEntry>, c: ApplicationCategory) -> (b: bool)
        ensures
            b == category_nonempty(snapshot.deep_view(), c),
    {
        let ghost sv = snapshot.deep_view();
        let tag = c.get_mime_name();
        let mut i: usize = 0;
        while i < snapshot.len()
            invariant
                i <= snapshot@.len(),
                forall|k: int| 0 <= k < i ==> !has_tag(#[trigger] sv[k], c.mime_name_spec()),
            decreases snapshot@.len() - i,
        {
            if Self::record_has_tag(&snapshot[i], tag) {
                assert(has_tag(sv[i as int], c.mime_name_spec()));
                return true;
            }
            i = i + 1;
        }
        false
    }

    /// The categories the snapshot offers: all applications and the
    /// recently used ones always, in front, then every real category
    /// with at least one record, in table order.  Empty real categories
    /// are omitted.
    #[verifier::loop_isolation(false)]
    pub fn available(snapshot: &Vec<ApplicationEntry>) -> (out: Vec<ApplicationCategory>)
        ensures
            out@ == available_spec(snapshot.deep_view()),
    {
        let ghost sv = snapshot.deep_view();
        let ghost keep = |c: ApplicationCategory| category_nonempty(sv, c);
        let table = category_table_exec();
        let mut out: Vec<ApplicationCategory> = Vec::new();
        out.push(ApplicationCategory::All);
        out.push(ApplicationCategory::RecentlyUsed);
        proof {
            reveal(Seq::filter);
            assert(out@ =~= seq![ApplicationCategory::All, ApplicationCategory::RecentlyUsed]
                + category_table().take(0).filter(keep));
        }
        let mut i: usize = 0;
        while i < table.len()
            invariant
                i <= table@.len(),
                table@ == category_table(),
                out@ == seq![ApplicationCategory::All, ApplicationCategory::RecentlyUsed]
                    + category_table().take(i as int).filter(keep),
            decreases table@.len() - i,
        {
            proof {
                reveal(Seq::filter);
                assert(category_table().take(i + 1).drop_last() =~= category_table().take(i as int));
                assert(category_table().take(i + 1).last() == category_table()[i as int]);
            }
            if Self::snapshot_has_category(snapshot, table[i]) {
                out.push(table[i]);
            }
            assert(out@ =~= seq![ApplicationCategory::All, ApplicationCategory::RecentlyUsed]
                + category_table().take(i + 1).filter(keep));
            i = i + 1;
        }
        proof {
            assert(category_table().take(category_table().len() as int) =~= category_table());
        }
        out
    }

    /// The records of one category, in snapshot order; the whole
    /// snapshot for the all-applications pseudo-category, and the
    /// recency ranking for the recently-used one.
    #[verifier::loop_isolation(false)]
    pub fn members(
        snapshot: &Vec<ApplicationEntry>,
        c: ApplicationCategory,
        tracker: &RecencyTracker,
    ) -> (out: Vec<ApplicationEntry>)
        ensures
            out.deep_view() == members_spec(snapshot.deep_view(), c, tracker@),
    {
        let ghost sv = snapshot.deep_view();
        match c {
            ApplicationCategory::All => {
                let mut out: Vec<ApplicationEntry> = Vec::new();
                let mut i: usize = 0;
                while i < snapshot.len()
                    invariant
                        i <= snapshot@.len(),
                        out@.len() == i,
                        forall|k: int| 0 <= k < i ==> out.deep_view()[k] == sv[k],
                    decreases snapshot@.len() - i,
                {
                    out.push(snapshot[i].clone());
                    i = i + 1;
                }
                proof {
                    assert(out.deep_view() =~= sv);
                }
                out
            },
            ApplicationCategory::RecentlyUsed => tracker.ranked(snapshot),
            _ => {
                let ghost keep = |v: AppView| has_tag(v, c.mime_name_spec());
                let tag = c.get_mime_name();
                let mut out: Vec<ApplicationEntry> = Vec::new();
                proof {
                    reveal(Seq::filter);
                    assert(out.deep_view() =~= sv.take(0).filter(keep));
                }
                let mut i: usize = 0;
                while i < snapshot.len()
                    invariant
                        i <= snapshot@.len(),
                        out.deep_view() == sv.take(i as int).filter(keep),
                    decreases snapshot@.len() - i,
                {
                    proof {
                        reveal(Seq::filter);
                        assert(sv.take(i + 1).drop_last() =~= sv.take(i as int));
                        assert(sv.take(i + 1).last() == sv[i as int]);
                    }
                    if Self::record_has_tag(&snapshot[i], tag) {
                        out.push(snapshot[i].clone());
                    }
                    assert(out.deep_view() =~= sv.take(i + 1).filter(keep));
                    i = i + 1;
                }
                proof {
                    assert(sv.take(sv.len() as int) =~= sv);
                }
                out
            },
        }
    }
}

/// Category completeness: the listing always begins with the two
/// pseudo-categories, whatever the snapshot holds, and every real
/// category it offers has at least one member record.
pub proof fn lemma_available_complete(s: Seq<AppView>, entries: Seq<crate::recency::RecentView>)
    ensures
        available_spec(s).len() >= 2,
        available_spec(s)[0] == ApplicationCategory::All,
        available_spec(s)[1] == ApplicationCategory::RecentlyUsed,
        forall|k: int|
            2 <= k < available_spec(s).len() ==> members_spec(
                s,
                #[trigger] available_spec(s)[k],
                entries,
            ).len() > 0,
{
    broadcast use vstd::seq_lib::group_filter_ensures;

    let keep = |c: ApplicationCategory| category_nonempty(s, c);
    let table_kept = category_table().filter(keep);
    assert forall|k: int| 2 <= k < available_spec(s).len() implies members_spec(
        s,
        #[trigger] available_spec(s)[k],
        entries,
    ).len() > 0 by {
        let c = available_spec(s)[k];
        assert(c == table_kept[k - 2]);
        assert(keep(c));
        assert(category_nonempty(s, c));
        let i = choose|i: int| 0 <= i < s.len() && has_tag(#[trigger] s[i], c.mime_name_spec());
        // a pseudo-category never stands in the filtered table, so the
        // members of c are the records carrying its tag
        crate::order::lemma_filter_in_original(category_table(), keep, k - 2);
        assert(category_table().contains(c));
        let rec_keep = |v: AppView| has_tag(v, c.mime_name_spec());
        assert(rec_keep(s[i]));
        s.lemma_filter_contains(rec_keep, i);
        assert(s.filter(rec_keep).contains(s[i]));
        assert(s.filter(rec_keep).len() > 0);
        assert(members_spec(s, c, entries) == s.filter(rec_keep));
    }
}

} // verus!
