use lapi_launcher::desktop::desktop_id;

#[test]
fn nested_desktop_ids_use_relative_paths() {
    assert_eq!(
        desktop_id(b"/apps", b"/apps/vendor/tool.desktop"),
        "vendor-tool.desktop"
    );
}

use freedesktop_desktop_entry::DesktopEntry;
use lapi_launcher::desktop::{
    current_desktops, exec_arguments, file_icon, is_launcher_path, parse_entry, file_item_id, file_item_name, launch_plan, locales,
    sort_catalog, terminal_arguments, tokenize, unescape_value, visible, Application, Catalog,
};
use std::path::PathBuf;

fn entry(exec: &str) -> DesktopEntry {
    let mut entry = DesktopEntry::from_appid("example".into());
    entry.path = PathBuf::from("/apps/Example App.desktop");
    entry.add_desktop_entry("Type".into(), "Application".into());
    entry.add_desktop_entry("Exec".into(), exec.into());
    entry
}

fn application(name: &str, id: &str, entry: DesktopEntry) -> Application {
    Application {
        id: id.to_string(),
        name: name.to_string(),
        search_text: name.to_string(),
        entry,
        on_desktop: false,
        file: None,
    }
}

#[test]
fn launch_preserves_quoted_paths_empty_arguments_and_literal_shell_syntax() {
    let entry = entry(r#""/opt/My App/bin" "two words" "" "$(touch /tmp/unwanted)" %U"#);
    assert_eq!(
        exec_arguments(&entry, "Example").unwrap(),
        ["/opt/My App/bin", "two words", "", "$(touch /tmp/unwanted)"]
    );
}

#[test]
fn expands_desktop_fields_without_splitting_names() {
    let mut entry = entry("example %i %c %k %% %f");
    entry.add_desktop_entry("Icon".into(), "example-icon".into());
    assert_eq!(
        exec_arguments(&entry, "Mi aplicación").unwrap(),
        [
            "example",
            "--icon",
            "example-icon",
            "Mi aplicación",
            "/apps/Example App.desktop",
            "%"
        ]
    );
}

#[test]
fn rejects_malformed_exec() {
    for exec in [
        "",
        "\"unfinished",
        "app %Z",
        "app %",
        "ENV=value app",
        "app trailing\\",
    ] {
        assert!(exec_arguments(&entry(exec), "Example").is_err(), "{exec}");
    }
}

#[test]
fn respects_visibility_and_desktop_membership() {
    let mut entry = entry("example");
    entry.add_desktop_entry("OnlyShowIn".into(), "KDE;GNOME;".into());
    assert!(visible(&entry, &vec!["KDE".into()]));
    assert!(!visible(&entry, &vec!["XFCE".into()]));
    entry.add_desktop_entry("NotShowIn".into(), "KDE;".into());
    assert!(!visible(&entry, &vec!["KDE".into()]));
    entry.add_desktop_entry("Hidden".into(), "true".into());
    assert!(!visible(&entry, &vec!["GNOME".into()]));
}

#[test]
fn decodes_desktop_value_escapes_before_argument_quoting() {
    let entry = entry(r#"app "two\swords" "a\\\\b" "a\\"b""#);
    assert_eq!(
        exec_arguments(&entry, "Example").unwrap(),
        ["app", "two words", "a\\b", "a\"b"]
    );
}

#[test]
fn missing_exec_asks_for_gio() {
    let mut entry = DesktopEntry::from_appid("example".into());
    entry.add_desktop_entry("Type".into(), "Application".into());
    assert_eq!(
        exec_arguments(&entry, "Example").unwrap_err(),
        "La aplicación requiere activación D-Bus; instala gio"
    );
}

#[test]
fn tokens_and_escapes_follow_the_desktop_entry_rules() {
    assert_eq!(tokenize("a  \"b c\" d").unwrap(), ["a", "b c", "d"]);
    assert!(tokenize("\"open").is_err());
    assert_eq!(unescape_value("a\\sb\\tc\\q").unwrap(), "a b\tc\\q");
    assert!(unescape_value("end\\").is_err());
}

#[test]
fn desktop_folder_files_get_icons_names_and_identifiers() {
    assert_eq!(file_icon(b"/home/me/Desktop/Photo.JPG", false), "image-x-generic");
    assert_eq!(file_icon(b"/home/me/Desktop/report.pdf", false), "application-pdf");
    assert_eq!(file_icon(b"/home/me/Desktop/backup.tar", false), "package-x-generic");
    assert_eq!(file_icon(b"/home/me/Desktop/song.flac", false), "audio-x-generic");
    assert_eq!(file_icon(b"/home/me/Desktop/movie.mkv", false), "video-x-generic");
    assert_eq!(file_icon(b"/home/me/Desktop/notes", false), "text-x-generic");
    assert_eq!(file_icon(b"/home/me/Desktop/.hidden", false), "text-x-generic");
    assert_eq!(file_icon(b"/home/me/Desktop/Projects", true), "folder");
    assert_eq!(file_item_name(b"Notes.txt", false), "Notes");
    assert_eq!(file_item_name(b"archive.tar.gz", false), "archive.tar");
    assert_eq!(file_item_name(b"Folder.d", true), "Folder.d");
    assert_eq!(file_item_name(b"bad\xffname.txt", false), "bad\u{fffd}name");
    assert_eq!(file_item_id(b"/home/me/Desktop/Notes.txt"), "file:/home/me/Desktop/Notes.txt");
}

#[test]
fn ids_outside_the_folder_keep_their_whole_path() {
    assert_eq!(desktop_id(b"/apps", b"/other/tool.desktop"), "/-other-tool.desktop");
    assert_eq!(desktop_id(b"/apps/", b"/apps//a/./b.desktop"), "a-b.desktop");
}

#[test]
fn the_catalog_is_ordered_by_lowercase_name_then_identifier() {
    let mut apps = vec![
        application("beta", "b.desktop", DesktopEntry::from_appid("b".into())),
        application("Alpha", "z.desktop", DesktopEntry::from_appid("z".into())),
        application("alpha", "a.desktop", DesktopEntry::from_appid("a".into())),
        application("ÉCLAIR", "e.desktop", DesktopEntry::from_appid("e".into())),
    ];
    sort_catalog(&mut apps);
    let ids: Vec<&str> = apps.iter().map(|app| app.id.as_str()).collect();
    assert_eq!(ids, ["a.desktop", "z.desktop", "b.desktop", "e.desktop"]);
    let catalog = Catalog { apps, skipped: 0 };
    assert_eq!(catalog.apps.len(), 4);
}

#[test]
fn locales_follow_language_then_the_first_set_variable() {
    assert_eq!(
        locales(
            &Some("es_ES:en".to_string()),
            &Some(String::new()),
            &Some("pt_BR.UTF-8".to_string()),
            &Some("de_DE.UTF-8".to_string()),
        ),
        ["es_ES", "en", "pt_BR", "es", "pt"]
    );
    assert!(locales(&None, &None, &None, &None).is_empty());
    assert_eq!(current_desktops(&Some("KDE::GNOME".to_string())), ["KDE", "GNOME"]);
    assert!(current_desktops(&None).is_empty());
}

#[test]
fn terminal_commands_prefer_the_configured_one() {
    let mut installed = vec![false; 10];
    assert_eq!(
        terminal_arguments(&vec!["foot".into(), "-e".into()], &installed).unwrap(),
        ["foot", "-e"]
    );
    assert_eq!(
        terminal_arguments(&Vec::new(), &installed).unwrap_err(),
        "Configura launcher.terminal para abrir aplicaciones de terminal"
    );
    installed[3] = true;
    installed[7] = true;
    assert_eq!(
        terminal_arguments(&Vec::new(), &installed).unwrap(),
        ["wezterm", "start", "--"]
    );
}

#[test]
fn launch_plans_open_files_and_run_entries_in_their_folder() {
    let installed = vec![false; 10];
    let mut file = application("Notes", "file:/d/Notes.txt", DesktopEntry::from_appid("Notes".into()));
    file.file = Some(b"/d/Notes.txt".to_vec());
    let plan = launch_plan(&file, &Vec::new(), true, true, &installed).unwrap();
    assert_eq!(plan.program, "xdg-open");
    assert!(plan.arguments.is_empty());
    assert_eq!(plan.file, Some(b"/d/Notes.txt".to_vec()));
    let plan = launch_plan(&file, &Vec::new(), false, true, &installed).unwrap();
    assert_eq!(plan.program, "gio");
    assert_eq!(plan.arguments, ["open"]);

    let mut runs = entry("tool --flag %f");
    runs.add_desktop_entry("Path".into(), "/work".into());
    let app = application("Tool", "tool.desktop", runs);
    let plan = launch_plan(&app, &Vec::new(), false, false, &installed).unwrap();
    assert_eq!(plan.program, "tool");
    assert_eq!(plan.arguments, ["--flag"]);
    assert_eq!(plan.directory.as_deref(), Some("/work"));

    let mut in_terminal = entry("htop");
    in_terminal.add_desktop_entry("Terminal".into(), "true".into());
    let app = application("Top", "top.desktop", in_terminal);
    let plan = launch_plan(&app, &vec!["kitty".into(), "--".into()], false, false, &installed).unwrap();
    assert_eq!(plan.program, "kitty");
    assert_eq!(plan.arguments, ["--", "htop"]);
    assert!(launch_plan(&app, &Vec::new(), false, false, &installed).is_err());

    let mut dbus = entry("ignored");
    dbus.add_desktop_entry("DBusActivatable".into(), "true".into());
    let app = application("Bus", "bus.desktop", dbus);
    let plan = launch_plan(&app, &Vec::new(), false, true, &installed).unwrap();
    assert_eq!(plan.program, "gio");
    assert_eq!(plan.arguments, ["launch", "/apps/Example App.desktop"]);
}

#[test]
fn scanned_entries_are_deduplicated_and_named() {
    let mut catalog = Catalog { apps: Vec::new(), skipped: 0 };
    let mut seen = Vec::new();
    let mut named = entry("example");
    named.add_desktop_entry("Name".into(), "Example".into());
    catalog.accept_scanned(&mut seen, "example.desktop".into(), Some(named), true, &Vec::new(), &Vec::new());
    assert_eq!(catalog.apps.len(), 1);
    assert_eq!(catalog.apps[0].name, "Example");
    assert_eq!(catalog.apps[0].search_text, "Example example.desktop   example");
    let again = entry("other");
    catalog.accept_scanned(&mut seen, "example.desktop".into(), Some(again), true, &Vec::new(), &Vec::new());
    assert_eq!(catalog.apps.len(), 1);
    catalog.accept_scanned(&mut seen, "broken.desktop".into(), None, true, &Vec::new(), &Vec::new());
    assert_eq!(catalog.skipped, 1);
    let mut blank = entry("blank");
    blank.add_desktop_entry("Name".into(), "   ".into());
    catalog.accept_scanned(&mut seen, "blank.desktop".into(), Some(blank), true, &Vec::new(), &Vec::new());
    assert_eq!(catalog.skipped, 2);
    let mut missing = entry("missing");
    missing.add_desktop_entry("Name".into(), "Missing".into());
    catalog.accept_scanned(&mut seen, "missing.desktop".into(), Some(missing), false, &Vec::new(), &Vec::new());
    assert_eq!(catalog.apps.len(), 1);
}

#[test]
fn desktop_membership_comes_from_the_user_folder_and_search_includes_files() {
    let mut catalog = Catalog { apps: Vec::new(), skipped: 0 };
    let mut seen = Vec::new();
    let mut installed = entry("example");
    installed.add_desktop_entry("Name".into(), "Installed Alias".into());
    catalog.accept_scanned(&mut seen, "internal.desktop".into(), Some(installed), true, &Vec::new(), &Vec::new());
    let mut shortcut = entry("example");
    shortcut.add_desktop_entry("Name".into(), "Desktop Alias".into());
    catalog.accept_launcher("internal.desktop".into(), Some(shortcut), &vec![false], &Vec::new(), &Vec::new());
    assert_eq!(catalog.apps.len(), 1);
    assert!(catalog.apps[0].on_desktop);
    assert_eq!(catalog.apps[0].name, "Desktop Alias");
    let mut other = entry("other");
    other.add_desktop_entry("Name".into(), "Other".into());
    catalog.accept_launcher("other.desktop".into(), Some(other), &vec![false], &Vec::new(), &Vec::new());
    assert_eq!(catalog.apps.len(), 2);
    catalog.accept_launcher("broken.desktop".into(), None, &vec![false, false], &Vec::new(), &Vec::new());
    assert_eq!(catalog.skipped, 1);
    let note_path = b"/home/me/Escritorio/Notes.txt";
    let note = Application {
        id: file_item_id(note_path),
        name: file_item_name(b"Notes.txt", false),
        search_text: file_item_name(b"Notes.txt", false),
        entry: DesktopEntry::from_appid("Notes".into()),
        on_desktop: false,
        file: Some(note_path.to_vec()),
    };
    catalog.apps.push(note);
    let shortcuts: Vec<_> = catalog.apps.iter().filter(|app| app.on_desktop).collect();
    assert_eq!(shortcuts.len(), 2);
    let note = catalog.apps.iter().find(|app| app.name == "Notes").unwrap();
    assert_eq!(note.file.as_deref(), Some(&note_path[..]));
    assert!(!note.on_desktop);
}

#[test]
fn search_text_includes_generic_names_and_keywords() {
    let mut catalog = Catalog { apps: Vec::new(), skipped: 0 };
    let mut seen = Vec::new();
    let mut full = entry("editor --new");
    full.add_desktop_entry("Name".into(), "Editor".into());
    full.add_desktop_entry("GenericName".into(), "Text Editor".into());
    full.add_desktop_entry("Keywords".into(), "text;code;".into());
    catalog.accept_scanned(&mut seen, "editor.desktop".into(), Some(full), true, &Vec::new(), &Vec::new());
    assert!(catalog.apps[0].search_text.starts_with("Editor editor.desktop Text Editor text code"));
    assert!(catalog.apps[0].search_text.ends_with(" editor --new"));
}

#[test]
fn user_entries_override_system_entries_even_when_hidden() {
    let mut catalog = Catalog { apps: Vec::new(), skipped: 0 };
    let mut seen = Vec::new();
    let mut hidden = entry("example");
    hidden.add_desktop_entry("Name".into(), "Example".into());
    hidden.add_desktop_entry("Hidden".into(), "true".into());
    let nested_user = desktop_id(b"/user", b"/user/nested/app.desktop");
    catalog.accept_scanned(&mut seen, nested_user, Some(hidden), true, &Vec::new(), &Vec::new());
    let mut normal = entry("example");
    normal.add_desktop_entry("Name".into(), "Example".into());
    let nested_system = desktop_id(b"/system", b"/system/nested/app.desktop");
    catalog.accept_scanned(&mut seen, nested_system, Some(normal), true, &Vec::new(), &Vec::new());
    let mut shown = entry("example");
    shown.add_desktop_entry("Name".into(), "Example".into());
    catalog.accept_scanned(&mut seen, "shown.desktop".into(), Some(shown), true, &Vec::new(), &Vec::new());
    catalog.accept_scanned(&mut seen, "broken.desktop".into(), None, true, &Vec::new(), &Vec::new());
    assert_eq!(catalog.apps.len(), 1);
    assert_eq!(catalog.apps[0].id, "shown.desktop");
}

#[test]
fn names_and_keywords_follow_the_first_translated_locale() {
    let text = "[Desktop Entry]\nType=Application\nName=Editor\nName[de]=Bearbeiter\nName[fr_CA]=Rédacteur\nKeywords=text;code\nKeywords[fr]=texte;source\nExec=editor\n";
    let parsed = DesktopEntry::from_str("/apps/editor.desktop", text, None::<&[&str]>).unwrap();
    let mut catalog = Catalog { apps: Vec::new(), skipped: 0 };
    let mut seen = Vec::new();
    let german = vec!["de_AT".to_string(), "fr".to_string()];
    catalog.accept_scanned(&mut seen, "editor.desktop".into(), Some(parsed.clone()), true, &german, &Vec::new());
    assert_eq!(catalog.apps[0].name, "Bearbeiter");
    assert!(catalog.apps[0].search_text.starts_with("Bearbeiter editor.desktop  texte source "));

    let mut catalog = Catalog { apps: Vec::new(), skipped: 0 };
    let mut seen = Vec::new();
    let canadian = vec!["fr_CA".to_string()];
    catalog.accept_scanned(&mut seen, "editor.desktop".into(), Some(parsed.clone()), true, &canadian, &Vec::new());
    assert_eq!(catalog.apps[0].name, "Rédacteur");
    assert!(catalog.apps[0].search_text.starts_with("Rédacteur editor.desktop  texte source "));

    let mut catalog = Catalog { apps: Vec::new(), skipped: 0 };
    let mut seen = Vec::new();
    let other = vec!["es_ES".to_string()];
    catalog.accept_scanned(&mut seen, "editor.desktop".into(), Some(parsed), true, &other, &Vec::new());
    assert_eq!(catalog.apps[0].name, "Editor");
    assert!(catalog.apps[0].search_text.starts_with("Editor editor.desktop  text code "));
}

#[test]
fn launchers_are_files_with_the_desktop_extension() {
    assert!(is_launcher_path(b"/home/ana/Escritorio/editor.desktop"));
    assert!(is_launcher_path(b"notes.txt.desktop"));
    assert!(!is_launcher_path(b"/home/ana/Escritorio/.desktop"));
    assert!(!is_launcher_path(b"/home/ana/Escritorio/editor.desktop.bak"));
    assert!(!is_launcher_path(b"/home/ana/Escritorio/desktop"));
    assert!(!is_launcher_path(b"/home/ana/Escritorio/editor.Desktop"));
    assert!(!is_launcher_path(b"/"));
}

#[test]
fn parsed_entries_keep_their_path_try_exec_and_wanted_translations() {
    let text = "[Desktop Entry]\nType=Application\nName=Editor\nName[de]=Bearbeiter\nName[it]=Redattore\nTryExec=editor-bin\nExec=editor\n";
    let locales = vec!["de_DE".to_string()];
    let (parsed, program) = parse_entry("/usr/share/applications/editor.desktop", text, &locales).unwrap();
    assert_eq!(program.as_deref(), Some("editor-bin"));
    assert_eq!(parsed.path, PathBuf::from("/usr/share/applications/editor.desktop"));
    assert_eq!(parsed.desktop_entry("Exec"), Some("editor"));
    assert_eq!(parsed.name(&["de"]).as_deref(), Some("Bearbeiter"));
    assert_eq!(parsed.name(&["it"]).as_deref(), Some("Editor"));

    let plain = "[Desktop Entry]\nName=Editor\n";
    let (_, program) = parse_entry("/apps/editor.desktop", plain, &Vec::new()).unwrap();
    assert_eq!(program, None);

    assert!(parse_entry("/apps/editor.desktop", "Name=Editor\n", &Vec::new()).is_none());
    assert!(parse_entry("/apps/editor.txt", plain, &Vec::new()).is_none());
    assert!(parse_entry("/apps/editor.desktop", "[Desktop Entry]\nExec=a\\\n", &Vec::new()).is_none());
}
