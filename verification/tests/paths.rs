use lapi_launcher::paths::{
    data_dirs, desktop_dir, global_config_path, join, parse_desktop_dir, resolve_path,
    user_config_path, xdg_path,
};

#[test]
fn desktop_path_supports_xdg_localization_spaces_and_disabled_directories() {
    let home = "/home/example";
    assert_eq!(
        parse_desktop_dir("XDG_DESKTOP_DIR=\"$HOME/Mi Escritorio\"", home),
        Some("/home/example/Mi Escritorio".to_string())
    );
    assert_eq!(
        parse_desktop_dir("XDG_DESKTOP_DIR=\"/data/Desk\"", home),
        Some("/data/Desk".to_string())
    );
    assert_eq!(
        parse_desktop_dir("XDG_DESKTOP_DIR=\"$HOME\"", home),
        Some(home.to_owned())
    );
    assert_eq!(
        parse_desktop_dir("XDG_DESKTOP_DIR=\"$(touch file)\"", home),
        None
    );
}

#[test]
fn desktop_folder_falls_back_to_the_usual_names() {
    let home = Some("/home/me".to_string());
    assert_eq!(
        desktop_dir(&Some("/x".into()), "", &None, false).unwrap().as_deref(),
        Some("/x")
    );
    assert_eq!(desktop_dir(&None, "", &home, true).unwrap().as_deref(), Some("/home/me/Escritorio"));
    assert_eq!(desktop_dir(&None, "", &home, false).unwrap().as_deref(), Some("/home/me/Desktop"));
    assert_eq!(desktop_dir(&None, "XDG_DESKTOP_DIR=\"$HOME/\"", &home, false).unwrap(), None);
    assert!(desktop_dir(&None, "", &None, false).is_err());
}

#[test]
fn configured_paths_resolve_against_home_and_the_config_folder() {
    let home = Some("/home/me".to_string());
    assert_eq!(resolve_path("~/logo.png", "/etc", &home).unwrap(), "/home/me/logo.png");
    assert_eq!(resolve_path("logo.png", "/etc/lapi", &home).unwrap(), "/etc/lapi/logo.png");
    assert_eq!(resolve_path("/abs/logo.png", "/etc", &home).unwrap(), "/abs/logo.png");
    assert_eq!(resolve_path("~x", "/etc", &home).unwrap(), "/etc/~x");
    assert!(resolve_path("", "/etc", &home).is_err());
    assert!(resolve_path("~", "/etc", &None).is_err());
    assert_eq!(join("/a/", "b"), "/a/b");
    assert_eq!(join("/a", "/b"), "/b");
}

#[test]
fn configuration_files_follow_the_xdg_folders() {
    let home = Some("/home/me".to_string());
    assert_eq!(
        user_config_path(&None, &home).unwrap(),
        "/home/me/.config/lapi-launcher/config.toml"
    );
    assert_eq!(
        user_config_path(&Some("/cfg".into()), &None).unwrap(),
        "/cfg/lapi-launcher/config.toml"
    );
    assert!(user_config_path(&Some("relative".into()), &Some("also-relative".into())).is_err());
    assert_eq!(global_config_path(), "/etc/lapi-launcher/config.toml");
    assert_eq!(xdg_path(&Some("rel".into()), ".local/state", &home).unwrap(), "/home/me/.local/state");
}

#[test]
fn data_folders_are_listed_once_in_order() {
    let home = Some("/home/me".to_string());
    assert_eq!(
        data_dirs(&None, &Some("/usr/share:relative::/usr/share/".into()), &home).unwrap(),
        [
            "/home/me/.local/share",
            "/usr/share",
            "/home/me/.local/share/flatpak/exports/share",
            "/var/lib/flatpak/exports/share",
            "/var/lib/snapd/desktop",
        ]
    );
    assert_eq!(data_dirs(&None, &None, &home).unwrap()[1], "/usr/local/share");
    assert!(data_dirs(&Some("/data".into()), &None, &None).is_err());
}
