use classic_menu::model::{ApplicationEntry, IconHandle};
use classic_menu::recency::{RecencyTracker, RecentApplication};

fn record(id: &str, name: &str) -> ApplicationEntry {
    ApplicationEntry {
        name: String::from(name),
        id: String::from(id),
        icon: IconHandle::Fallback,
        comment: None,
        exec_command: Some(String::from(id)),
        category: Vec::new(),
        is_terminal: false,
        desktop_actions: Vec::new(),
    }
}

fn snapshot() -> Vec<ApplicationEntry> {
    vec![
        record("b", "Files"),
        record("c", "Filezilla"),
        record("a", "Firefox"),
    ]
}

#[test]
fn launches_accumulate_and_rank() {
    let mut t = RecencyTracker::new();
    t.record_launch("b");
    t.record_launch("b");
    t.record_launch("a");

    let entries = t.entries();
    assert_eq!(entries.len(), 2);
    assert_eq!(entries[0].app_id, "b");
    assert_eq!(entries[0].launch_count, 2);
    assert_eq!(entries[1].app_id, "a");
    assert_eq!(entries[1].launch_count, 1);

    let ranked = t.ranked(&snapshot());
    let names: Vec<&str> = ranked.iter().map(|r| r.name.as_str()).collect();
    assert_eq!(names, vec!["Files", "Firefox"]);
}

#[test]
fn first_launch_creates_entry_with_count_one() {
    let mut t = RecencyTracker::new();
    t.record_launch("files");
    assert_eq!(t.entries().len(), 1);
    assert_eq!(t.entries()[0].app_id, "files");
    assert_eq!(t.entries()[0].launch_count, 1);
}

#[test]
fn count_saturates_at_maximum() {
    let mut t = RecencyTracker::from_entries(vec![RecentApplication {
        app_id: String::from("busy"),
        launch_count: u32::MAX,
    }]);
    t.record_launch("busy");
    assert_eq!(t.entries()[0].launch_count, u32::MAX);

    let mut almost = RecencyTracker::from_entries(vec![RecentApplication {
        app_id: String::from("busy"),
        launch_count: u32::MAX - 1,
    }]);
    almost.record_launch("busy");
    assert_eq!(almost.entries()[0].launch_count, u32::MAX);
}

#[test]
fn ranked_drops_entries_missing_from_snapshot() {
    let mut t = RecencyTracker::new();
    t.record_launch("gone");
    t.record_launch("b");
    let ranked = t.ranked(&snapshot());
    let ids: Vec<&str> = ranked.iter().map(|r| r.id.as_str()).collect();
    assert_eq!(ids, vec!["b"]);
}

#[test]
fn ranked_breaks_count_ties_by_store_order() {
    let t = RecencyTracker::from_entries(vec![
        RecentApplication { app_id: String::from("c"), launch_count: 3 },
        RecentApplication { app_id: String::from("a"), launch_count: 3 },
        RecentApplication { app_id: String::from("b"), launch_count: 7 },
    ]);
    let ranked = t.ranked(&snapshot());
    let ids: Vec<&str> = ranked.iter().map(|r| r.id.as_str()).collect();
    assert_eq!(ids, vec!["b", "c", "a"]);
}

#[test]
fn counts_never_decrease_over_a_session() {
    let mut t = RecencyTracker::new();
    t.record_launch("a");
    let mut previous = 0u32;
    for _ in 0..5 {
        t.record_launch("a");
        let current = t.entries()[0].launch_count;
        assert!(current >= previous);
        previous = current;
    }
    assert_eq!(previous, 6);
}

#[test]
fn empty_tracker_ranks_nothing() {
    let t = RecencyTracker::new();
    assert!(t.ranked(&snapshot()).is_empty());
}
