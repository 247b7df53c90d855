use classic_menu::category::{ApplicationCategory, CategoryIndex};
use classic_menu::model::{ApplicationEntry, IconHandle};
use classic_menu::recency::RecencyTracker;

fn record(id: &str, name: &str, categories: &[&str]) -> ApplicationEntry {
    ApplicationEntry {
        name: String::from(name),
        id: String::from(id),
        icon: IconHandle::Fallback,
        comment: None,
        exec_command: Some(String::from(id)),
        category: categories.iter().map(|c| String::from(*c)).collect(),
        is_terminal: false,
        desktop_actions: Vec::new(),
    }
}

#[test]
fn empty_snapshot_still_offers_the_pseudo_categories() {
    let snap: Vec<ApplicationEntry> = Vec::new();
    let avail = CategoryIndex::available(&snap);
    assert_eq!(avail.len(), 2);
    assert_eq!(avail[0], ApplicationCategory::All);
    assert_eq!(avail[1], ApplicationCategory::RecentlyUsed);
}

#[test]
fn available_lists_only_inhabited_categories_in_table_order() {
    let snap = vec![
        record("player", "Player", &["Audio", "Video"]),
        record("term", "Terminal", &["System", "Utility"]),
        record("notes", "Notes", &["Utility"]),
    ];
    let avail = CategoryIndex::available(&snap);
    assert_eq!(
        avail,
        vec![
            ApplicationCategory::All,
            ApplicationCategory::RecentlyUsed,
            ApplicationCategory::Audio,
            ApplicationCategory::Video,
            ApplicationCategory::System,
            ApplicationCategory::Utility,
        ]
    );
}

#[test]
fn unknown_tags_inhabit_no_category() {
    let snap = vec![record("odd", "Odd", &["SomethingElse"])];
    let avail = CategoryIndex::available(&snap);
    assert_eq!(avail.len(), 2);
}

#[test]
fn members_of_all_is_the_whole_snapshot() {
    let snap = vec![
        record("player", "Player", &["Audio"]),
        record("term", "Terminal", &["System"]),
    ];
    let t = RecencyTracker::new();
    let members = CategoryIndex::members(&snap, ApplicationCategory::All, &t);
    let ids: Vec<&str> = members.iter().map(|r| r.id.as_str()).collect();
    assert_eq!(ids, vec!["player", "term"]);
}

#[test]
fn members_filters_by_tag_preserving_order() {
    let snap = vec![
        record("player", "Player", &["Audio", "Video"]),
        record("term", "Terminal", &["System", "Utility"]),
        record("notes", "Notes", &["Utility"]),
    ];
    let t = RecencyTracker::new();
    let members = CategoryIndex::members(&snap, ApplicationCategory::Utility, &t);
    let ids: Vec<&str> = members.iter().map(|r| r.id.as_str()).collect();
    assert_eq!(ids, vec!["term", "notes"]);
}

#[test]
fn members_matches_tags_case_sensitively() {
    let snap = vec![record("a", "A", &["audio"])];
    let t = RecencyTracker::new();
    let members = CategoryIndex::members(&snap, ApplicationCategory::Audio, &t);
    assert!(members.is_empty());
}

#[test]
fn members_of_recently_used_comes_from_the_tracker() {
    let snap = vec![
        record("player", "Player", &["Audio"]),
        record("term", "Terminal", &["System"]),
    ];
    let mut t = RecencyTracker::new();
    t.record_launch("term");
    let members = CategoryIndex::members(&snap, ApplicationCategory::RecentlyUsed, &t);
    let ids: Vec<&str> = members.iter().map(|r| r.id.as_str()).collect();
    assert_eq!(ids, vec!["term"]);
}

#[test]
fn games_category_matches_the_game_tag() {
    let snap = vec![record("chess", "Chess", &["Game"])];
    let avail = CategoryIndex::available(&snap);
    assert!(avail.contains(&ApplicationCategory::Games));
    assert_eq!(ApplicationCategory::Games.get_mime_name(), "Game");
}

#[test]
fn category_names_and_icons() {
    assert_eq!(ApplicationCategory::All.get_display_name(), "all-applications");
    assert_eq!(ApplicationCategory::RecentlyUsed.get_display_name(), "recently-used");
    assert_eq!(ApplicationCategory::All.get_mime_name(), "");
    assert_eq!(ApplicationCategory::RecentlyUsed.get_mime_name(), "");
    assert_eq!(ApplicationCategory::Audio.get_icon_name(), "applications-audio-symbolic");
    assert_eq!(ApplicationCategory::Settings.get_icon_name(), "preferences-system-symbolic");
    assert_eq!(ApplicationCategory::Utility.get_display_name(), "utility");
}
