use lapi_launcher::history::History;

#[test]
fn recents_are_unique_newest_first_and_bounded() {
    let mut history = History::new();
    for id in ["first", "second", "third", "second"] {
        history.record(id, 2);
    }
    assert_eq!(history.recent, ["second", "third"]);
    history.record("first", 0);
    assert!(history.recent.is_empty());
}

#[test]
fn the_history_file_lives_in_the_state_folder() {
    assert_eq!(History::default_path("/home/me/.local/state"), "/home/me/.local/state/lapi-launcher/recent.toml");
    assert_eq!(History::default_path("/state/"), "/state/lapi-launcher/recent.toml");
}
