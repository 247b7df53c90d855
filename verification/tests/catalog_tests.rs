use classic_menu::catalog::Catalog;
use classic_menu::source::RawEntry;

fn raw(id: &str, name: &str) -> RawEntry {
    RawEntry {
        id: String::from(id),
        name: String::from(name),
        name_locales: Vec::new(),
        comment: String::new(),
        comment_locales: Vec::new(),
        exec_command: Some(String::from(id)),
        icon: None,
        categories: Vec::new(),
        terminal: false,
        no_display: false,
        only_show_in: Vec::new(),
        actions: Vec::new(),
    }
}

#[test]
fn new_catalog_is_empty_and_stale() {
    let c = Catalog::new();
    assert!(c.is_stale());
    assert!(c.current().is_empty());
}

#[test]
fn rebuild_sorts_by_display_name() {
    let mut c = Catalog::new();
    let entries = vec![raw("z", "Zed"), raw("a", "Archiver"), raw("m", "Mail")];
    c.rebuild(entries, &None, &None, false);
    assert!(!c.is_stale());
    let names: Vec<&str> = c.current().iter().map(|r| r.name.as_str()).collect();
    assert_eq!(names, vec!["Archiver", "Mail", "Zed"]);
}

#[test]
fn rebuild_is_stable_for_equal_names() {
    let mut c = Catalog::new();
    let entries = vec![raw("second", "Editor"), raw("first", "Atlas"), raw("third", "Editor")];
    c.rebuild(entries, &None, &None, false);
    let ids: Vec<&str> = c.current().iter().map(|r| r.id.as_str()).collect();
    // the two "Editor" records keep their input order behind "Atlas"
    assert_eq!(ids, vec!["first", "second", "third"]);
}

#[test]
fn rebuild_twice_from_same_input_gives_same_snapshot() {
    let mut c1 = Catalog::new();
    let mut c2 = Catalog::new();
    let make = || vec![raw("b", "Beta"), raw("a", "Alpha"), raw("c", "Gamma")];
    c1.rebuild(make(), &None, &None, false);
    c2.rebuild(make(), &None, &None, false);
    let ids1: Vec<&str> = c1.current().iter().map(|r| r.id.as_str()).collect();
    let ids2: Vec<&str> = c2.current().iter().map(|r| r.id.as_str()).collect();
    assert_eq!(ids1, ids2);
}

#[test]
fn duplicate_id_keeps_highest_priority_root() {
    let mut c = Catalog::new();
    // the same application under two roots: the first entry wins
    let mut user_copy = raw("editor", "Editor (user)");
    user_copy.comment = String::from("from the user root");
    let system_copy = raw("editor", "Editor (system)");
    c.rebuild(vec![user_copy, system_copy], &None, &None, false);
    let snap = c.current();
    assert_eq!(snap.len(), 1);
    assert_eq!(snap[0].name, "Editor (user)");
    assert_eq!(snap[0].comment.as_deref(), Some("from the user root"));
}

#[test]
fn invalidate_keeps_records_but_marks_stale() {
    let mut c = Catalog::new();
    c.rebuild(vec![raw("a", "Alpha")], &None, &None, false);
    assert!(!c.is_stale());
    c.invalidate();
    assert!(c.is_stale());
    assert_eq!(c.current().len(), 1);
}

#[test]
fn order_is_case_sensitive_codepoint_order() {
    let mut c = Catalog::new();
    // every uppercase letter precedes every lowercase letter
    let entries = vec![raw("a", "ark"), raw("z", "Zed")];
    c.rebuild(entries, &None, &None, false);
    let names: Vec<&str> = c.current().iter().map(|r| r.name.as_str()).collect();
    assert_eq!(names, vec!["Zed", "ark"]);
}

#[test]
fn order_handles_names_beyond_ascii() {
    let mut c = Catalog::new();
    // the accented capital sits above every plain letter
    let entries = vec![raw("e", "Éditeur"), raw("z", "Zed"), raw("a", "Atlas")];
    c.rebuild(entries, &None, &None, false);
    let names: Vec<&str> = c.current().iter().map(|r| r.name.as_str()).collect();
    assert_eq!(names, vec!["Atlas", "Zed", "Éditeur"]);
}

#[test]
fn empty_input_yields_empty_snapshot() {
    let mut c = Catalog::new();
    c.rebuild(Vec::new(), &None, &None, false);
    assert!(!c.is_stale());
    assert!(c.current().is_empty());
}
