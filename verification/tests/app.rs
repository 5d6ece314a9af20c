use freedesktop_desktop_entry::DesktopEntry;
use lapi_launcher::app::{Action, App, Event, KeyCode, KeyEvent, LapiProgram, Section};
use lapi_launcher::config::Config;
use lapi_launcher::desktop::{Application, Catalog};
use lapi_launcher::history::History;
use lapi_launcher::i18n::{Language, Translator};
use lapi_launcher::system::{SystemInfo, SystemSection};

fn section(label: &str) -> SystemSection {
    SystemSection {
        label: label.to_string(),
        summary: String::new(),
        details: vec![("Kernel".to_string(), "6.0".to_string())],
    }
}

fn make_app(names: &[&str]) -> App {
    let apps = names
        .iter()
        .map(|name| Application {
            id: format!("{name}.desktop"),
            name: (*name).to_string(),
            search_text: (*name).to_string(),
            entry: DesktopEntry::from_appid((*name).to_string()),
            on_desktop: true,
            file: None,
        })
        .collect();
    let system = SystemInfo {
        sections: [section("OS"), section("Desktop"), section("PC")],
        os_icon: "distributor-logo".to_string(),
        desktop_icon: "preferences-desktop".to_string(),
    };
    App::new(
        Config::default(),
        Catalog { apps, skipped: 0 },
        History::new(),
        system,
        Translator::new(Language::English, &Vec::new()),
    )
}

fn key(code: KeyCode) -> Event {
    Event::Key(KeyEvent {
        code,
        control: false,
        alt: false,
        super_key: false,
        release: false,
    })
}

#[test]
fn fuzzy_search_handles_accents_and_empty_results_without_stale_selection() {
    let mut app = make_app(&["Firefox", "Música", "Terminal"]);
    app.handle(Event::Paste("musica".into()), 0);
    assert_eq!(app.filtered, [1]);
    app.handle(key(KeyCode::End), 0);
    app.handle(Event::Paste("zzz".into()), 0);
    assert!(app.filtered.is_empty());
    let action = app.handle(key(KeyCode::Enter), 0);
    assert_eq!(action, Action::Idle);
    assert!(!app.quit);
    app.handle(key(KeyCode::Esc), 0);
    assert_eq!(app.filtered.len(), 3);
    app.handle(Event::Paste("FFX".into()), 0);
    assert_eq!(app.filtered, [0]);
    assert_eq!(app.section, Section::Results);
}

#[test]
fn arrows_and_tab_navigate_independent_sections() {
    let mut app = make_app(&["One", "Two", "Three", "Four", "Five"]);
    app.columns[0] = 3;
    app.handle(key(KeyCode::Down), 0);
    assert_eq!(app.selected[0], 3);
    app.handle(key(KeyCode::Right), 0);
    assert_eq!(app.selected[0], 4);
    app.handle(key(KeyCode::Down), 0);
    assert_eq!(app.selected[0], 4);
    app.handle(key(KeyCode::Tab), 0);
    assert_eq!(app.section, Section::Recent);
    app.handle(key(KeyCode::Down), 0);
    assert_eq!(app.selected, [4, 0, 0]);
}

#[test]
fn missing_lapi_program_keeps_the_launcher_running() {
    let mut app = make_app(&[]);
    app.select_lapi_program(LapiProgram::Installer, false);
    assert!(!app.quit);
    assert_eq!(app.next_program, None);
    assert!(app.status_error);
    assert!(app.status.contains("lapi-installer"));

    app.select_lapi_program(LapiProgram::Manager, true);
    assert!(app.quit);
    assert_eq!(app.next_program, Some(LapiProgram::Manager));
}

#[test]
fn enter_on_a_desktop_item_asks_to_launch_it_and_records_it() {
    let mut app = make_app(&["One", "Two"]);
    let action = app.handle(key(KeyCode::Enter), 0);
    assert_eq!(action, Action::Launch(app.desktop[0]));
    app.record_launch(0);
    assert_eq!(app.history.recent, ["One.desktop"]);
    assert_eq!(app.status, "Opening One");
}

#[test]
fn a_failed_launch_reports_an_error_without_recording() {
    let mut app = make_app(&["One"]);
    app.launch_failed(0);
    assert!(app.status_error);
    assert_eq!(app.status, "Could not open One");
    assert!(app.history.recent.is_empty());
}

#[test]
fn search_text_is_limited_and_escape_clears_it() {
    let mut app = make_app(&["One"]);
    app.handle(Event::Paste("x".repeat(300)), 0);
    assert_eq!(app.query.chars().count(), 256);
    app.handle(key(KeyCode::Esc), 0);
    assert!(app.query.is_empty());
    assert_eq!(app.section, Section::Desktop);
}

#[test]
fn program_keys_ask_for_the_companion_programs() {
    let app = make_app(&[]);
    assert_eq!(LapiProgram::Installer.command(), "lapi-installer");
    assert_eq!(LapiProgram::Manager.command(), "lapi-manager");
    assert_eq!(Section::Results.index(), 2);
    assert!(app.indices(Section::Desktop).is_empty());
}

#[test]
fn closing_on_launch_quits_only_after_a_clean_start() {
    let mut app = make_app(&["One"]);
    app.config.launcher.close_on_launch = true;
    app.record_launch(0);
    app.finish_launch(None);
    assert!(app.quit);
    let mut app = make_app(&["One"]);
    app.config.launcher.close_on_launch = true;
    app.record_launch(0);
    app.finish_launch(Some("cannot save".into()));
    assert!(!app.quit);
    assert_eq!(app.status, "cannot save");
    assert!(app.status_error);
}

#[test]
fn reloading_replaces_the_catalog_and_reports_it() {
    let mut app = make_app(&["One"]);
    let fresh = make_app(&["Two", "Three"]);
    app.finish_reload(Ok(fresh.apps));
    assert_eq!(app.apps.len(), 2);
    assert_eq!(app.status, "Applications updated");
    app.finish_reload(Err("broken".into()));
    assert!(app.status_error);
    assert_eq!(app.status, "broken");
}
