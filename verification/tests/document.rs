use lapi_launcher::config::{RgbColor, Theme};
use lapi_launcher::document::{
    merge_documents, migrate_button_theme, record_theme, resolve_config_paths, Document, Entry, Leaf,
};

fn text(value: &str) -> Leaf {
    Leaf::Text(value.to_string())
}

fn section(entries: Vec<(&str, Leaf)>) -> Entry {
    Entry::Section(entries.into_iter().map(|(k, v)| (k.to_string(), v)).collect())
}

fn document(entries: Vec<(&str, Entry)>) -> Document {
    Document {
        entries: entries.into_iter().map(|(k, v)| (k.to_string(), v)).collect(),
    }
}

fn get<'a>(doc: &'a Document, key: &str) -> Option<&'a Entry> {
    doc.entries.iter().find(|(k, _)| k == key).map(|(_, v)| v)
}

fn value<'a>(doc: &'a Document, section_name: &str, key: &str) -> Option<&'a Leaf> {
    match get(doc, section_name) {
        Some(Entry::Section(table)) => table.iter().find(|(k, _)| k == key).map(|(_, v)| v),
        _ => None,
    }
}

fn text_of(leaf: Option<&Leaf>) -> Option<&str> {
    match leaf {
        Some(Leaf::Text(value)) => Some(value.as_str()),
        Some(Leaf::Other(value)) => Some(value.as_str()),
        _ => None,
    }
}

#[test]
fn user_config_has_priority_over_global_config() {
    let global = document(vec![
        ("logo", section(vec![("width", Leaf::Other("30".into())), ("height", Leaf::Other("10".into()))])),
        ("theme", section(vec![("manager_background", text("#102030"))])),
    ]);
    let user = document(vec![("logo", section(vec![("width", Leaf::Other("40".into()))]))]);
    let merged = merge_documents(global, user);
    assert_eq!(text_of(value(&merged, "logo", "width")), Some("40"));
    assert_eq!(text_of(value(&merged, "logo", "height")), Some("10"));
    assert_eq!(text_of(value(&merged, "theme", "manager_background")), Some("#102030"));
}

#[test]
fn a_user_value_replaces_a_global_section() {
    let global = document(vec![("logo", section(vec![("width", Leaf::Other("30".into()))]))]);
    let user = document(vec![("logo", Entry::Value(Leaf::Other("1".into())))]);
    let merged = merge_documents(global, user);
    assert!(matches!(get(&merged, "logo"), Some(Entry::Value(Leaf::Other(v))) if v == "1"));
}

#[test]
fn old_button_colors_move_into_the_theme() {
    let mut doc = document(vec![
        ("buttons", section(vec![("launcher_background", text("#111111")), ("muted", text("#222222"))])),
        ("theme", section(vec![("muted", text("#333333"))])),
    ]);
    migrate_button_theme(&mut doc);
    assert!(get(&doc, "buttons").is_none());
    assert_eq!(text_of(value(&doc, "theme", "launcher_background")), Some("#111111"));
    assert_eq!(text_of(value(&doc, "theme", "muted")), Some("#333333"));
    let mut doc = document(vec![("buttons", section(vec![("accent", text("#444444"))]))]);
    migrate_button_theme(&mut doc);
    assert_eq!(text_of(value(&doc, "theme", "accent")), Some("#444444"));
}

#[test]
fn paths_in_a_file_resolve_against_its_folder() {
    let mut doc = document(vec![
        ("logo", section(vec![("path", text("logo.png"))])),
        (
            "applications",
            section(vec![
                ("desktop_dir", text("~/Desk")),
                ("extra_dirs", Leaf::Texts(vec!["apps".into(), "/abs".into()])),
            ]),
        ),
    ]);
    resolve_config_paths(&mut doc, "/etc/lapi-launcher", &Some("/home/me".into())).unwrap();
    assert_eq!(text_of(value(&doc, "logo", "path")), Some("/etc/lapi-launcher/logo.png"));
    assert_eq!(text_of(value(&doc, "applications", "desktop_dir")), Some("/home/me/Desk"));
    match value(&doc, "applications", "extra_dirs") {
        Some(Leaf::Texts(dirs)) => assert_eq!(dirs, &["/etc/lapi-launcher/apps", "/abs"]),
        _ => panic!("extra_dirs lost"),
    }
    let mut doc = document(vec![("logo", section(vec![("path", text(""))]))]);
    assert!(resolve_config_paths(&mut doc, "/etc", &None).is_err());
}

#[test]
fn saving_a_theme_records_only_the_changes() {
    let mut doc = document(vec![("theme", section(vec![("muted", text("#102030"))]))]);
    let base = Theme::default();
    let mut changed = base.clone();
    changed.accent = RgbColor::new(1, 2, 3);
    record_theme(&mut doc, &base, &changed).unwrap();
    assert_eq!(text_of(value(&doc, "theme", "muted")), Some("#102030"));
    assert_eq!(text_of(value(&doc, "theme", "accent")), Some("#010203"));
    assert!(value(&doc, "theme", "background").is_none());
    let mut broken = document(vec![("theme", Entry::Value(text("x")))]);
    assert_eq!(
        record_theme(&mut broken, &base, &changed).unwrap_err(),
        "El tema de usuario debe ser una tabla TOML"
    );
}
