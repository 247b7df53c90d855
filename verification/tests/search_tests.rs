use classic_menu::model::{ApplicationEntry, IconHandle};
use classic_menu::search::SearchEngine;

use fuzzy_matcher::FuzzyMatcher;

fn record(id: &str, name: &str) -> ApplicationEntry {
    ApplicationEntry {
        name: String::from(name),
        id: String::from(id),
        icon: IconHandle::Fallback,
        comment: None,
        exec_command: Some(String::from(name).to_lowercase()),
        category: Vec::new(),
        is_terminal: false,
        desktop_actions: Vec::new(),
    }
}

/// The name-sorted snapshot of the three browsers and file tools.
fn snapshot() -> Vec<ApplicationEntry> {
    vec![
        record("b", "Files"),
        record("c", "Filezilla"),
        record("a", "Firefox"),
    ]
}

#[test]
fn empty_query_returns_snapshot_in_name_order() {
    let snap = snapshot();
    let out = SearchEngine::filter(&snap, "");
    let names: Vec<&str> = out.iter().map(|r| r.name.as_str()).collect();
    assert_eq!(names, vec!["Files", "Filezilla", "Firefox"]);
}

#[test]
fn query_fi_matches_all_three() {
    let snap = snapshot();
    let out = SearchEngine::filter(&snap, "fi");
    assert_eq!(out.len(), 3);
    let mut names: Vec<&str> = out.iter().map(|r| r.name.as_str()).collect();
    names.sort();
    assert_eq!(names, vec!["Files", "Filezilla", "Firefox"]);
}

#[test]
fn query_fi_orders_by_descending_score_then_catalog_order() {
    let snap = snapshot();
    let out = SearchEngine::filter(&snap, "fi");

    // compute the expected ranking with the matcher itself
    let matcher = fuzzy_matcher::skim::SkimMatcherV2::default();
    let mut expected: Vec<(i64, String)> = snap
        .iter()
        .filter_map(|r| matcher.fuzzy_match(&r.name, "fi").map(|s| (s, r.name.clone())))
        .collect();
    // stable sort by descending score keeps catalog order on ties
    expected.sort_by(|a, b| b.0.cmp(&a.0));
    let expected_names: Vec<String> = expected.into_iter().map(|p| p.1).collect();

    let names: Vec<String> = out.iter().map(|r| r.name.clone()).collect();
    assert_eq!(names, expected_names);

    // and the scores really do come out non-increasing
    let scores: Vec<i64> = out
        .iter()
        .map(|r| matcher.fuzzy_match(&r.name, "fi").unwrap())
        .collect();
    for w in scores.windows(2) {
        assert!(w[0] >= w[1]);
    }
}

#[test]
fn unmatched_query_returns_nothing() {
    let snap = snapshot();
    let out = SearchEngine::filter(&snap, "zzz");
    assert!(out.is_empty());
}

#[test]
fn whitespace_query_is_a_real_query() {
    let snap = snapshot();
    // no display name contains a blank, so a blank query yields nothing
    let out = SearchEngine::filter(&snap, " ");
    assert!(out.is_empty());
}

#[test]
fn equal_names_keep_snapshot_order_on_equal_scores() {
    let twin_a = record("first", "Terminal");
    let twin_b = record("second", "Terminal");
    let snap = vec![twin_a, twin_b];
    let out = SearchEngine::filter(&snap, "term");
    assert_eq!(out.len(), 2);
    assert_eq!(out[0].id, "first");
    assert_eq!(out[1].id, "second");
}

#[test]
fn repeated_calls_return_identical_ordering() {
    let snap = snapshot();
    let first = SearchEngine::filter(&snap, "fi");
    let second = SearchEngine::filter(&snap, "fi");
    let a: Vec<&str> = first.iter().map(|r| r.id.as_str()).collect();
    let b: Vec<&str> = second.iter().map(|r| r.id.as_str()).collect();
    assert_eq!(a, b);
}
