//! Entry source: turns raw desktop-entry data into application records.
//!
//! The host hands over one [`RawEntry`] per desktop-entry file, listed in
//! search-path priority order (a higher-priority root first).  [`normalize`]
//! resolves the locale-specific fields with fallback to the untranslated
//! ones, drops entries that are hidden, unlaunchable or restricted to a
//! different desktop environment, rewrites the launch command for a
//! sandboxed session, and keeps exactly one record per application id —
//! the one from the highest-priority root.

use vstd::prelude::*;

use crate::model::{ActionView, AppView, ApplicationEntry, DesktopAction, IconHandle, IconView};

verus! {

/// Launcher prefix put in front of every command in a sandboxed session.
pub const FLATPAK_PREFIX: &'static str = "flatpak-spawn --host ";

/// One desktop-entry file, read but not yet interpreted.
#[derive(Debug)]
pub struct RawEntry {
    /// Identity derived from the file name.
    pub id: String,
    /// Untranslated name; empty when the entry has none.
    pub name: String,
    /// Translated names, keyed by locale tag.
    pub name_locales: Vec<(String, String)>,
    /// Untranslated description; empty when the entry has none.
    pub comment: String,
    pub comment_locales: Vec<(String, String)>,
    pub exec_command: Option<String>,
    /// Icon reference as written in the entry.
    pub icon: Option<String>,
    pub categories: Vec<String>,
    pub terminal: bool,
    /// The entry asks not to be listed.
    pub no_display: bool,
    /// Desktop environments the entry is restricted to; empty means any.
    pub only_show_in: Vec<String>,
    pub actions: Vec<DesktopAction>,
}

/// Mathematical model of a [`RawEntry`].
#[verifier::ext_equal]
pub ghost struct RawView {
    pub id: Seq<char>,
    pub name: Seq<char>,
    pub name_locales: Seq<(Seq<char>, Seq<char>)>,
    pub comment: Seq<char>,
    pub comment_locales: Seq<(Seq<char>, Seq<char>)>,
    pub exec_command: Option<Seq<char>>,
    pub icon: Option<Seq<char>>,
    pub categories: Seq<Seq<char>>,
    pub terminal: bool,
    pub no_display: bool,
    pub only_show_in: Seq<Seq<char>>,
    pub actions: Seq<ActionView>,
}

impl View for RawEntry {
    type V = RawView;

    open spec fn view(&self) -> RawView {
        RawView {
            id: self.id@,
            name: self.name@,
            name_locales: self.name_locales.deep_view(),
            comment: self.comment@,
            comment_locales: self.comment_locales.deep_view(),
            exec_command: self.exec_command.deep_view(),
            icon: self.icon.deep_view(),
            categories: self.categories.deep_view(),
            terminal: self.terminal,
            no_display: self.no_display,
            only_show_in: self.only_show_in.deep_view(),
            actions: self.actions@.map_values(|a: DesktopAction| a@),
        }
    }
}

impl DeepView for RawEntry {
    type V = RawView;

    open spec fn deep_view(&self) -> RawView {
        self.view()
    }
}

/// The value under the first matching tag, scanning from the front.
pub open spec fn lookup_tag(pairs: Seq<(Seq<char>, Seq<char>)>, tag: Seq<char>) -> Option<
    Seq<char>,
>
    decreases pairs.len(),
{
    if pairs.len() == 0 {
        Option::None
    } else if pairs[0].0 == tag {
        Option::Some(pairs[0].1)
    } else {
        lookup_tag(pairs.drop_first(), tag)
    }
}

/// A locale-resolved field: the translation for the session locale when
/// one exists, else the untranslated value.
pub open spec fn resolve_field(
    default: Seq<char>,
    pairs: Seq<(Seq<char>, Seq<char>)>,
    locale: Option<Seq<char>>,
) -> Seq<char> {
    match locale {
        Option::Some(tag) => match lookup_tag(pairs, tag) {
            Option::Some(v) => v,
            Option::None => default,
        },
        Option::None => default,
    }
}

/// How an icon reference is read: an absolute path names a file, any other
/// non-empty text names a theme icon, nothing yields the fallback icon.
pub open spec fn icon_view_of(icon: Option<Seq<char>>) -> IconView {
    match icon {
        Option::Some(s) => if s.len() > 0 && s[0] == '/' {
            IconView::Path(s)
        } else if s.len() > 0 {
            IconView::Named(s)
        } else {
            IconView::Fallback
        },
        Option::None => IconView::Fallback,
    }
}

/// Whether a raw entry belongs in the catalog: it has an identity and a
/// launch command, does not ask to be hidden, and is not restricted to a
/// desktop environment other than the current one.
pub open spec fn visible(r: RawView, desktop: Option<Seq<char>>) -> bool {
    &&& r.id.len() > 0
    &&& !r.no_display
    &&& r.exec_command is Some
    &&& (r.only_show_in.len() == 0 || (desktop matches Option::Some(d)
        && r.only_show_in.contains(d)))
}

/// The record a visible raw entry becomes.
pub open spec fn record_of(r: RawView, locale: Option<Seq<char>>, is_flatpak: bool) -> AppView {
    AppView {
        name: if resolve_field(r.name, r.name_locales, locale).len() > 0 {
            resolve_field(r.name, r.name_locales, locale)
        } else {
            r.id
        },
        id: r.id,
        icon: icon_view_of(r.icon),
        comment: if resolve_field(r.comment, r.comment_locales, locale).len() > 0 {
            Option::Some(resolve_field(r.comment, r.comment_locales, locale))
        } else {
            Option::None
        },
        exec_command: match r.exec_command {
            Option::Some(e) => Option::Some(
                if is_flatpak {
                    FLATPAK_PREFIX@ + e
                } else {
                    e
                },
            ),
            Option::None => Option::None,
        },
        category: r.categories,
        is_terminal: r.terminal,
        desktop_actions: r.actions,
    }
}

/// The records of the visible entries, in input order.
pub open spec fn vis_map(
    s: Seq<RawView>,
    locale: Option<Seq<char>>,
    desktop: Option<Seq<char>>,
    is_flatpak: bool,
) -> Seq<AppView>
    decreases s.len(),
{
    if s.len() == 0 {
        Seq::empty()
    } else {
        vis_map(s.drop_last(), locale, desktop, is_flatpak) + if visible(s.last(), desktop) {
            seq![record_of(s.last(), locale, is_flatpak)]
        } else {
            Seq::empty()
        }
    }
}

/// Some record of `s` carries the id.
pub open spec fn contains_id(s: Seq<AppView>, id: Seq<char>) -> bool {
    exists|i: int| 0 <= i < s.len() && s[i].id == id
}

/// Keeps the first record of each id and drops every later one.
pub open spec fn dedup_by_id(s: Seq<AppView>) -> Seq<AppView>
    decreases s.len(),
{
    if s.len() == 0 {
        Seq::empty()
    } else {
        let d = dedup_by_id(s.drop_last());
        if contains_id(s.drop_last(), s.last().id) {
            d
        } else {
            d.push(s.last())
        }
    }
}

/// What [`normalize`] returns: the visible records, resolved for the
/// session, one per id, in input order.
pub open spec fn normalize_spec(
    s: Seq<RawView>,
    locale: Option<Seq<char>>,
    desktop: Option<Seq<char>>,
    is_flatpak: bool,
) -> Seq<AppView> {
    dedup_by_id(vis_map(s, locale, desktop, is_flatpak))
}

/// A record list extended by one record contains an id exactly when the
/// list did or the new record carries it.
proof fn lemma_contains_id_push(t: Seq<AppView>, x: AppView, id: Seq<char>)
    ensures
        contains_id(t.push(x), id) == (contains_id(t, id) || x.id == id),
{
    if contains_id(t.push(x), id) {
        let k = choose|k: int| 0 <= k < t.push(x).len() && t.push(x)[k].id == id;
        if k < t.len() {
            assert(t[k].id == id);
        }
    }
    if contains_id(t, id) {
        let k = choose|k: int| 0 <= k < t.len() && t[k].id == id;
        assert(t.push(x)[k].id == id);
    }
    if x.id == id {
        assert(t.push(x)[t.len() as int].id == id);
    }
}

/// Deduplication loses no id and invents none.
pub proof fn lemma_dedup_complete(s: Seq<AppView>)
    ensures
        forall|id: Seq<char>|
            #[trigger] contains_id(dedup_by_id(s), id) == contains_id(s, id),
    decreases s.len(),
{
    if s.len() == 0 {
    } else {
        let t = s.drop_last();
        let x = s.last();
        lemma_dedup_complete(t);
        let d = dedup_by_id(s);
        let dt = dedup_by_id(t);
        assert(t.push(x) =~= s);
        assert forall|id: Seq<char>|
            #[trigger] contains_id(d, id) == contains_id(s, id) by {
            assert(contains_id(dt, id) == contains_id(t, id));
            lemma_contains_id_push(t, x, id);
            if contains_id(t, x.id) {
                assert(d == dt);
                if x.id == id {
                    assert(contains_id(t, id));
                }
            } else {
                assert(d == dt.push(x));
                lemma_contains_id_push(dt, x, id);
            }
        }
    }
}

/// Dedup invariant, first half: the surviving records carry pairwise
/// distinct ids.
pub proof fn lemma_dedup_unique_ids(s: Seq<AppView>)
    ensures
        forall|i: int, j: int|
            0 <= i < j < dedup_by_id(s).len() ==> #[trigger] dedup_by_id(s)[i].id
                != #[trigger] dedup_by_id(s)[j].id,
    decreases s.len(),
{
    if s.len() == 0 {
    } else {
        let t = s.drop_last();
        let x = s.last();
        lemma_dedup_unique_ids(t);
        lemma_dedup_complete(t);
        let d = dedup_by_id(s);
        let dt = dedup_by_id(t);
        if contains_id(t, x.id) {
            assert(d == dt);
        } else {
            assert(d == dt.push(x));
            assert(!contains_id(dt, x.id));
            assert forall|i: int, j: int| 0 <= i < j < d.len() implies #[trigger] d[i].id
                != #[trigger] d[j].id by {
                if j < d.len() - 1 {
                    assert(d[i] == dt[i]);
                    assert(d[j] == dt[j]);
                } else {
                    assert(d[i] == dt[i]);
                    assert(d[j] == x);
                    if dt[i].id == x.id {
                        assert(contains_id(dt, x.id));
                    }
                }
            }
        }
    }
}

/// Index of the first record carrying the id; `s.len()` when none does.
pub open spec fn first_index_of_id(s: Seq<AppView>, id: Seq<char>) -> int
    decreases s.len(),
{
    if s.len() == 0 {
        0
    } else if s[0].id == id {
        0
    } else {
        1 + first_index_of_id(s.drop_first(), id)
    }
}

/// The first index of a present id names its first occurrence.
pub proof fn lemma_first_index_props(s: Seq<AppView>, id: Seq<char>)
    requires
        contains_id(s, id),
    ensures
        0 <= first_index_of_id(s, id) < s.len(),
        s[first_index_of_id(s, id)].id == id,
        forall|k: int| 0 <= k < first_index_of_id(s, id) ==> s[k].id != id,
    decreases s.len(),
{
    if s.len() == 0 {
    } else if s[0].id == id {
    } else {
        let r = s.drop_first();
        let w = choose|w: int| 0 <= w < s.len() && s[w].id == id;
        assert(r[w - 1].id == id);
        assert(contains_id(r, id));
        lemma_first_index_props(r, id);
        assert(s[1 + first_index_of_id(r, id)] == r[first_index_of_id(r, id)]);
        assert forall|k: int| 0 <= k < first_index_of_id(s, id) implies s[k].id != id by {
            if k > 0 {
                assert(r[k - 1].id != id);
            }
        }
    }
}

/// Appending a record does not move the first occurrence of an id the
/// list already holds.
proof fn lemma_first_index_push(t: Seq<AppView>, x: AppView, id: Seq<char>)
    requires
        contains_id(t, id),
    ensures
        first_index_of_id(t.push(x), id) == first_index_of_id(t, id),
    decreases t.len(),
{
    if t.len() == 0 {
    } else if t[0].id == id {
        assert(t.push(x)[0] == t[0]);
    } else {
        let r = t.drop_first();
        assert(t.push(x)[0] == t[0]);
        assert(t.push(x).drop_first() =~= r.push(x));
        let w = choose|w: int| 0 <= w < t.len() && t[w].id == id;
        assert(r[w - 1].id == id);
        assert(contains_id(r, id));
        lemma_first_index_push(r, x, id);
    }
}

/// A record with a fresh id, appended, first occurs at the end.
proof fn lemma_first_index_push_new(t: Seq<AppView>, x: AppView)
    requires
        !contains_id(t, x.id),
    ensures
        first_index_of_id(t.push(x), x.id) == t.len(),
    decreases t.len(),
{
    if t.len() == 0 {
        assert(t.push(x)[0] == x);
    } else {
        let r = t.drop_first();
        assert(t.push(x)[0] == t[0]);
        if t[0].id == x.id {
            assert(contains_id(t, x.id));
        }
        assert(t.push(x).drop_first() =~= r.push(x));
        assert forall|k: int| 0 <= k < r.len() implies r[k].id != x.id by {
            assert(r[k] == t[k + 1]);
            if t[k + 1].id == x.id {
                assert(contains_id(t, x.id));
            }
        }
        assert(!contains_id(r, x.id));
        lemma_first_index_push_new(r, x);
    }
}

/// Dedup invariant, second half: each survivor is the record of the
/// first entry that carried its id -- the highest-priority root wins.
pub proof fn lemma_dedup_keeps_first(s: Seq<AppView>)
    ensures
        forall|i: int|
            #![trigger dedup_by_id(s)[i]]
            0 <= i < dedup_by_id(s).len() ==> 0 <= first_index_of_id(
                s,
                dedup_by_id(s)[i].id,
            ) < s.len() && dedup_by_id(s)[i] == s[first_index_of_id(s, dedup_by_id(s)[i].id)],
    decreases s.len(),
{
    if s.len() == 0 {
    } else {
        let t = s.drop_last();
        let x = s.last();
        lemma_dedup_keeps_first(t);
        lemma_dedup_complete(t);
        let d = dedup_by_id(s);
        let dt = dedup_by_id(t);
        assert(t.push(x) =~= s);
        assert forall|i: int| #![trigger d[i]] 0 <= i < d.len() implies 0 <= first_index_of_id(
            s,
            d[i].id,
        ) < s.len() && d[i] == s[first_index_of_id(s, d[i].id)] by {
            if contains_id(t, x.id) || i < d.len() - 1 {
                assert(d[i] == dt[i]);
                let j = first_index_of_id(t, dt[i].id);
                assert(0 <= j < t.len() && dt[i] == t[j]);
                assert(t[j].id == dt[i].id);
                assert(contains_id(t, dt[i].id));
                lemma_first_index_push(t, x, dt[i].id);
                assert(first_index_of_id(s, d[i].id) == j);
                assert(s[j] == t[j]);
            } else {
                // the newly kept record: nothing earlier carries its id
                assert(d == dt.push(x));
                assert(d[i] == x);
                lemma_first_index_push_new(t, x);
                assert(first_index_of_id(s, x.id) == t.len());
                assert(s[t.len() as int] == x);
            }
        }
    }
}

proof fn lemma_record_of_wf(r: RawView, locale: Option<Seq<char>>, is_flatpak: bool)
    requires
        r.id.len() > 0,
    ensures
        record_of(r, locale, is_flatpak).wf(),
{
}

proof fn lemma_vis_map_wf(
    s: Seq<RawView>,
    locale: Option<Seq<char>>,
    desktop: Option<Seq<char>>,
    is_flatpak: bool,
)
    ensures
        forall|k: int|
            #![trigger vis_map(s, locale, desktop, is_flatpak)[k]]
            0 <= k < vis_map(s, locale, desktop, is_flatpak).len() ==> vis_map(
                s,
                locale,
                desktop,
                is_flatpak,
            )[k].wf(),
    decreases s.len(),
{
    if s.len() > 0 {
        let t = s.drop_last();
        lemma_vis_map_wf(t, locale, desktop, is_flatpak);
        let m = vis_map(s, locale, desktop, is_flatpak);
        let mt = vis_map(t, locale, desktop, is_flatpak);
        assert forall|k: int| #![trigger m[k]] 0 <= k < m.len() implies m[k].wf() by {
            if k < mt.len() {
                assert(m[k] == mt[k]);
            } else {
                assert(visible(s.last(), desktop));
                assert(m[k] == record_of(s.last(), locale, is_flatpak));
                lemma_record_of_wf(s.last(), locale, is_flatpak);
            }
        }
    }
}

/// Record invariant: every normalized record has a non-empty id and a
/// non-empty display name — the name fell back to the id if the entry
/// offered none.
pub proof fn lemma_normalize_wf(
    s: Seq<RawView>,
    locale: Option<Seq<char>>,
    desktop: Option<Seq<char>>,
    is_flatpak: bool,
)
    ensures
        forall|k: int|
            0 <= k < normalize_spec(s, locale, desktop, is_flatpak).len() ==> (
            #[trigger] normalize_spec(s, locale, desktop, is_flatpak)[k]).wf(),
{
    let m = vis_map(s, locale, desktop, is_flatpak);
    lemma_vis_map_wf(s, locale, desktop, is_flatpak);
    lemma_dedup_keeps_first(m);
    assert forall|k: int| 0 <= k < dedup_by_id(m).len() implies (#[trigger] dedup_by_id(
        m,
    )[k]).wf() by {
        let j = first_index_of_id(m, dedup_by_id(m)[k].id);
        assert(dedup_by_id(m)[k] == m[j]);
        assert(vis_map(s, locale, desktop, is_flatpak)[j].wf());
    }
}

proof fn lemma_lookup_tag_skip(pairs: Seq<(Seq<char>, Seq<char>)>, tag: Seq<char>, i: int)
    requires
        0 <= i <= pairs.len(),
        forall|j: int| 0 <= j < i ==> pairs[j].0 != tag,
    ensures
        lookup_tag(pairs, tag) == lookup_tag(pairs.skip(i), tag),
    decreases i,
{
    if i == 0 {
        assert(pairs.skip(0) =~= pairs);
    } else {
        assert(pairs.drop_first().skip(i - 1) =~= pairs.skip(i));
        lemma_lookup_tag_skip(pairs.drop_first(), tag, i - 1);
    }
}

/// Finds the value for a locale tag among the translated variants.
fn lookup_tag_exec(pairs: &Vec<(String, String)>, tag: &String) -> (r: Option<String>)
    ensures
        r.deep_view() == lookup_tag(pairs.deep_view(), tag@),
{
    let ghost pv = pairs.deep_view();
    let mut i: usize = 0;
    while i < pairs.len()
        invariant
            i <= pairs.len(),
            pv == pairs.deep_view(),
            forall|j: int| 0 <= j < i ==> pv[j].0 != tag@,
        decreases pairs.len() - i,
    {
        proof {
            lemma_lookup_tag_skip(pv, tag@, i as int);
        }
        if pairs[i].0.eq(tag) {
            assert(pv.skip(i as int)[0] == pv[i as int]);
            return Option::Some(pairs[i].1.clone());
        }
        assert(pv.skip(i as int)[0] == pv[i as int]);
        assert(pv.skip(i as int).drop_first() =~= pv.skip(i as int + 1));
        i = i + 1;
    }
    proof {
        lemma_lookup_tag_skip(pv, tag@, i as int);
    }
    Option::None
}

/// Resolves one localized field with fallback to the untranslated value.
fn resolve_field_exec(
    default: &String,
    pairs: &Vec<(String, String)>,
    locale: &Option<String>,
) -> (r: String)
    ensures
        r@ == resolve_field(default@, pairs.deep_view(), locale.deep_view()),
{
    match locale {
        Option::Some(tag) => match lookup_tag_exec(pairs, tag) {
            Option::Some(v) => v,
            Option::None => default.clone(),
        },
        Option::None => default.clone(),
    }
}

/// Classifies an icon reference.
fn icon_of_exec(icon: &Option<String>) -> (r: IconHandle)
    ensures
        r@ == icon_view_of(icon.deep_view()),
{
    match icon {
        Option::Some(s) => {
            let n = s.as_str().unicode_len();
            if n > 0 && s.as_str().get_char(0) == '/' {
                IconHandle::Path(s.clone())
            } else if n > 0 {
                IconHandle::Named(s.clone())
            } else {
                IconHandle::Fallback
            }
        },
        Option::None => IconHandle::Fallback,
    }
}

/// Decides whether a raw entry belongs in the catalog.
#[verifier::loop_isolation(false)]
fn is_visible(r: &RawEntry, desktop: &Option<String>) -> (b: bool)
    ensures
        b == visible(r@, desktop.deep_view()),
{
    if r.id.as_str().is_empty() {
        return false;
    }
    if r.no_display {
        return false;
    }
    if r.exec_command.is_none() {
        return false;
    }
    if r.only_show_in.len() == 0 {
        return true;
    }
    match desktop {
        Option::Some(d) => {
            let mut i: usize = 0;
            while i < r.only_show_in.len()
                invariant
                    i <= r.only_show_in@.len(),
                    forall|j: int| 0 <= j < i ==> r@.only_show_in[j] != d@,
                decreases r.only_show_in.len() - i,
            {
                if r.only_show_in[i].eq(d) {
                    assert(r@.only_show_in[i as int] == d@);
                    return true;
                }
                i = i + 1;
            }
            assert(!r@.only_show_in.contains(d@));
            false
        },
        Option::None => false,
    }
}

/// Builds the record of one visible raw entry.
fn to_record(r: RawEntry, locale: &Option<String>, is_flatpak: bool) -> (out: ApplicationEntry)
    ensures
        out@ == record_of(r@, locale.deep_view(), is_flatpak),
{
    let resolved_name = resolve_field_exec(&r.name, &r.name_locales, locale);
    let resolved_comment = resolve_field_exec(&r.comment, &r.comment_locales, locale);
    let icon = icon_of_exec(&r.icon);
    let RawEntry { id, exec_command, categories, terminal, actions, .. } = r;
    let name = if resolved_name.as_str().is_empty() {
        id.clone()
    } else {
        resolved_name
    };
    let comment = if resolved_comment.as_str().is_empty() {
        Option::None
    } else {
        Option::Some(resolved_comment)
    };
    let exec_command = match exec_command {
        Option::Some(e) => Option::Some(
            if is_flatpak {
                let mut c = String::from_str(FLATPAK_PREFIX);
                c.append(e.as_str());
                c
            } else {
                e
            },
        ),
        Option::None => Option::None,
    };
    let out = ApplicationEntry {
        name,
        id,
        icon,
        comment,
        exec_command,
        category: categories,
        is_terminal: terminal,
        desktop_actions: actions,
    };
    assert(out@ =~= record_of(r@, locale.deep_view(), is_flatpak));
    out
}

/// Normalizes a priority-ordered list of raw entries into application
/// records: locale resolution with fallback, the three visibility
/// filters, the sandbox rewrite of the launch command, and one record
/// per id, kept from the highest-priority root.
#[verifier::loop_isolation(false)]
pub fn normalize(
    entries: Vec<RawEntry>,
    locale: &Option<String>,
    desktop: &Option<String>,
    is_flatpak: bool,
) -> (out: Vec<ApplicationEntry>)
    ensures
        out.deep_view() == normalize_spec(
            entries.deep_view(),
            locale.deep_view(),
            desktop.deep_view(),
            is_flatpak,
        ),
{
    let ghost sv = entries.deep_view();
    let ghost lv = locale.deep_view();
    let ghost dv = desktop.deep_view();

    // first pass: resolve and filter, keeping input order
    let mut mapped: Vec<ApplicationEntry> = Vec::new();
    let mut rest = entries;
    while rest.len() > 0
        invariant
            rest@.len() <= sv.len(),
            rest.deep_view() == sv.skip(sv.len() - rest@.len()),
            mapped.deep_view() == vis_map(sv.take(sv.len() - rest@.len()), lv, dv, is_flatpak),
        decreases rest@.len(),
    {
        let ghost i = sv.len() - rest@.len();
        let ghost prev = rest.deep_view();
        let ghost prev_raw = rest@;
        let e = rest.remove(0);
        proof {
            assert(e@ == prev[0]);
            assert(e@ == sv[i]);
            assert(rest@ == prev_raw.remove(0));
            assert forall|j: int| 0 <= j < rest@.len() implies rest.deep_view()[j] == sv.skip(
                i + 1,
            )[j] by {
                assert(rest@[j] == prev_raw[j + 1]);
                assert(prev[j + 1] == sv.skip(i)[j + 1]);
            }
            assert(rest.deep_view() =~= sv.skip(i + 1));
            assert(sv.take(i + 1).drop_last() =~= sv.take(i));
            assert(sv.take(i + 1).last() == sv[i]);
        }
        if is_visible(&e, desktop) {
            let rec = to_record(e, locale, is_flatpak);
            mapped.push(rec);
        }
        assert(mapped.deep_view() =~= vis_map(sv.take(i + 1), lv, dv, is_flatpak));
    }
    proof {
        assert(sv.take(sv.len() as int) =~= sv);
    }

    // second pass: keep the first record of each id
    let ghost mv = mapped.deep_view();
    let mut out: Vec<ApplicationEntry> = Vec::new();
    let mut rest2 = mapped;
    while rest2.len() > 0
        invariant
            rest2@.len() <= mv.len(),
            rest2.deep_view() == mv.skip(mv.len() - rest2@.len()),
            out.deep_view() == dedup_by_id(mv.take(mv.len() - rest2@.len())),
            forall|id: Seq<char>|
                contains_id(out.deep_view(), id) == contains_id(
                    mv.take(mv.len() - rest2@.len()),
                    id,
                ),
        decreases rest2@.len(),
    {
        let ghost i = mv.len() - rest2@.len();
        let ghost prev = rest2.deep_view();
        let ghost prev_raw = rest2@;
        let ghost out_before = out.deep_view();
        let rec = rest2.remove(0);
        proof {
            assert(rec@ == prev[0]);
            assert(rec@ == mv[i]);
            assert(rest2@ == prev_raw.remove(0));
            assert forall|j: int| 0 <= j < rest2@.len() implies rest2.deep_view()[j] == mv.skip(
                i + 1,
            )[j] by {
                assert(rest2@[j] == prev_raw[j + 1]);
                assert(prev[j + 1] == mv.skip(i)[j + 1]);
            }
            assert(rest2.deep_view() =~= mv.skip(i + 1));
            assert(mv.take(i + 1).drop_last() =~= mv.take(i));
            assert(mv.take(i + 1).last() == mv[i]);
        }
        // scan the kept records for the same id
        let mut seen = false;
        let mut j: usize = 0;
        while j < out.len()
            invariant
                j <= out@.len(),
                out.deep_view() == out_before,
                seen == exists|k: int| 0 <= k < j && out.deep_view()[k].id == rec@.id,
            decreases out@.len() - j,
        {
            if out[j].id.eq(&rec.id) {
                assert(out.deep_view()[j as int].id == rec@.id);
                seen = true;
            }
            j = j + 1;
        }
        assert(seen == contains_id(out_before, rec@.id));
        assert(seen == contains_id(mv.take(i), rec@.id));
        if !seen {
            out.push(rec);
        }
        assert(out.deep_view() =~= dedup_by_id(mv.take(i + 1)));
        assert forall|id: Seq<char>|
            contains_id(out.deep_view(), id) == contains_id(mv.take(i + 1), id) by {
            let odv = out.deep_view();
            let t1 = mv.take(i + 1);
            assert(contains_id(out_before, id) == contains_id(mv.take(i), id));
            if contains_id(t1, id) {
                let k = choose|k: int| 0 <= k < t1.len() && t1[k].id == id;
                if k < i {
                    assert(mv.take(i)[k].id == id);
                    assert(contains_id(mv.take(i), id));
                    let m = choose|m: int| 0 <= m < out_before.len() && out_before[m].id == id;
                    assert(odv[m].id == id);
                } else {
                    // the id of the record handled this round
                    assert(k == i);
                    assert(t1[k] == mv[i]);
                    if seen {
                        let m = choose|m: int|
                            0 <= m < out_before.len() && out_before[m].id == rec@.id;
                        assert(odv[m].id == id);
                    } else {
                        assert(odv[odv.len() - 1].id == id);
                    }
                }
                assert(contains_id(odv, id));
            }
            if contains_id(odv, id) {
                let m = choose|m: int| 0 <= m < odv.len() && odv[m].id == id;
                if m < out_before.len() {
                    assert(out_before[m].id == id);
                    assert(contains_id(mv.take(i), id));
                    let k = choose|k: int| 0 <= k < mv.take(i).len() && mv.take(i)[k].id == id;
                    assert(t1[k].id == id);
                } else {
                    assert(odv[m] == rec@);
                    assert(t1[i].id == id);
                }
                assert(contains_id(t1, id));
            }
        }
    }
    proof {
        assert(mv.take(mv.len() as int) =~= mv);
    }
    out
}

} // verus!
