use classic_menu::model::{DesktopAction, IconHandle};
use classic_menu::source::{normalize, RawEntry};

fn raw(id: &str, name: &str) -> RawEntry {
    RawEntry {
        id: String::from(id),
        name: String::from(name),
        name_locales: Vec::new(),
        comment: String::new(),
        comment_locales: Vec::new(),
        exec_command: Some(String::from(id)),
        icon: None,
        categories: Vec::new(),
        terminal: false,
        no_display: false,
        only_show_in: Vec::new(),
        actions: Vec::new(),
    }
}

#[test]
fn locale_match_selects_translation() {
    let mut e = raw("files", "Files");
    e.name_locales = vec![
        (String::from("de"), String::from("Dateien")),
        (String::from("cs"), String::from("Soubory")),
    ];
    let out = normalize(vec![e], &Some(String::from("cs")), &None, false);
    assert_eq!(out.len(), 1);
    assert_eq!(out[0].name, "Soubory");
}

#[test]
fn locale_miss_falls_back_to_default_name() {
    let mut e = raw("files", "Files");
    e.name_locales = vec![(String::from("de"), String::from("Dateien"))];
    let out = normalize(vec![e], &Some(String::from("fr")), &None, false);
    assert_eq!(out[0].name, "Files");
}

#[test]
fn country_coded_locale_tag_matches_exactly() {
    let mut e = raw("files", "Files");
    e.name_locales = vec![
        (String::from("pt"), String::from("Ficheiros")),
        (String::from("pt_BR"), String::from("Arquivos")),
    ];
    let out = normalize(vec![e], &Some(String::from("pt_BR")), &None, false);
    assert_eq!(out[0].name, "Arquivos");
}

#[test]
fn no_locale_uses_default_name() {
    let mut e = raw("files", "Files");
    e.name_locales = vec![(String::from("de"), String::from("Dateien"))];
    let out = normalize(vec![e], &None, &None, false);
    assert_eq!(out[0].name, "Files");
}

#[test]
fn empty_name_falls_back_to_id() {
    let e = raw("bare-tool", "");
    let out = normalize(vec![e], &None, &None, false);
    assert_eq!(out[0].name, "bare-tool");
}

#[test]
fn comment_resolves_with_fallback_and_empty_means_none() {
    let mut with_comment = raw("a", "Alpha");
    with_comment.comment = String::from("default text");
    with_comment.comment_locales = vec![(String::from("cs"), String::from("text v cestine"))];
    let without_comment = raw("b", "Beta");
    let out = normalize(
        vec![with_comment, without_comment],
        &Some(String::from("cs")),
        &None,
        false,
    );
    assert_eq!(out[0].comment.as_deref(), Some("text v cestine"));
    assert_eq!(out[1].comment, None);
}

#[test]
fn hidden_entries_are_dropped() {
    let mut hidden = raw("h", "Hidden tool");
    hidden.no_display = true;
    let out = normalize(vec![hidden, raw("v", "Visible")], &None, &None, false);
    assert_eq!(out.len(), 1);
    assert_eq!(out[0].id, "v");
}

#[test]
fn entries_without_exec_are_dropped() {
    let mut broken = raw("b", "Broken");
    broken.exec_command = None;
    let out = normalize(vec![broken, raw("v", "Visible")], &None, &None, false);
    assert_eq!(out.len(), 1);
    assert_eq!(out[0].id, "v");
}

#[test]
fn only_show_in_respects_current_desktop() {
    let mut cosmic_only = raw("c", "Cosmic tool");
    cosmic_only.only_show_in = vec![String::from("COSMIC")];
    let mut kde_only = raw("k", "KDE tool");
    kde_only.only_show_in = vec![String::from("KDE")];
    let everywhere = raw("e", "Everywhere");
    let out = normalize(
        vec![cosmic_only, kde_only, everywhere],
        &None,
        &Some(String::from("COSMIC")),
        false,
    );
    let ids: Vec<&str> = out.iter().map(|r| r.id.as_str()).collect();
    assert_eq!(ids, vec!["c", "e"]);
}

#[test]
fn only_show_in_without_known_desktop_drops_restricted_entries() {
    let mut restricted = raw("r", "Restricted");
    restricted.only_show_in = vec![String::from("KDE")];
    let out = normalize(vec![restricted, raw("e", "Everywhere")], &None, &None, false);
    let ids: Vec<&str> = out.iter().map(|r| r.id.as_str()).collect();
    assert_eq!(ids, vec!["e"]);
}

#[test]
fn sandbox_prefixes_launch_command() {
    let out = normalize(vec![raw("files", "Files")], &None, &None, true);
    assert_eq!(out[0].exec_command.as_deref(), Some("flatpak-spawn --host files"));
}

#[test]
fn outside_sandbox_command_is_unchanged() {
    let out = normalize(vec![raw("files", "Files")], &None, &None, false);
    assert_eq!(out[0].exec_command.as_deref(), Some("files"));
}

#[test]
fn icon_classification() {
    let mut by_path = raw("p", "P");
    by_path.icon = Some(String::from("/usr/share/icons/p.svg"));
    let mut by_name = raw("n", "N");
    by_name.icon = Some(String::from("applications-utilities"));
    let mut empty_icon = raw("e", "E");
    empty_icon.icon = Some(String::new());
    let none_icon = raw("f", "F");
    let out = normalize(vec![by_path, by_name, empty_icon, none_icon], &None, &None, false);
    assert!(matches!(&out[0].icon, IconHandle::Path(p) if p == "/usr/share/icons/p.svg"));
    assert!(matches!(&out[1].icon, IconHandle::Named(n) if n == "applications-utilities"));
    assert!(matches!(&out[2].icon, IconHandle::Fallback));
    assert!(matches!(&out[3].icon, IconHandle::Fallback));
}

#[test]
fn entries_without_id_are_dropped() {
    let nameless = raw("", "No identity");
    let out = normalize(vec![nameless, raw("v", "Visible")], &None, &None, false);
    assert_eq!(out.len(), 1);
    assert_eq!(out[0].id, "v");
}

#[test]
fn categories_terminal_flag_and_actions_carry_over() {
    let mut e = raw("term", "Terminal");
    e.categories = vec![String::from("System"), String::from("Utility")];
    e.terminal = true;
    e.actions = vec![DesktopAction {
        name: String::from("New Window"),
        exec_command: String::from("term --new-window"),
    }];
    let out = normalize(vec![e], &None, &None, false);
    assert_eq!(out[0].category, vec![String::from("System"), String::from("Utility")]);
    assert!(out[0].is_terminal);
    assert_eq!(out[0].desktop_actions.len(), 1);
    assert_eq!(out[0].desktop_actions[0].name, "New Window");
}
