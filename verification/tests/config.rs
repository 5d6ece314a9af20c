use lapi_launcher::config::{
    config_source, BorderStyle, Config, ConfigSource, RgbColor, Theme, ThemeColor,
};

#[test]
fn theme_supports_terminal_colors_and_cycles_the_palette() {
    let mut theme = Theme::default();
    theme.set_field_value(0, "#102030").unwrap();
    assert_eq!(theme.background.rgb().unwrap().components(), (16, 32, 48));
    theme.set_field_value(0, "terminal").unwrap();
    assert_eq!(theme.background, ThemeColor::Terminal);
    theme.cycle_field(0, 1);
    assert_ne!(theme.background, ThemeColor::Terminal);
    theme.set_field_value(16, "double").unwrap();
    assert_eq!(theme.border_style, BorderStyle::Double);
}

#[test]
fn colors_read_back_what_they_write() {
    let color = RgbColor::new(1, 2, 171);
    assert_eq!(color.as_hex(), "#0102ab");
    assert_eq!(RgbColor::parse("#0102AB").unwrap().components(), (1, 2, 171));
    assert_eq!(RgbColor::parse("red").unwrap_err(), "debe usar el formato #RRGGBB");
    assert_eq!(
        RgbColor::parse("#12345").unwrap_err(),
        "debe usar exactamente seis dígitos hexadecimales"
    );
    assert_eq!(ThemeColor::parse("Terminal").unwrap(), ThemeColor::Terminal);
    assert_eq!(ThemeColor::Terminal.as_config_value(), "terminal");
    assert_eq!(BorderStyle::parse("THICK").unwrap(), BorderStyle::Thick);
    assert_eq!(BorderStyle::Thick.to_string(), "thick");
    assert_eq!(BorderStyle::Plain.cycle(-1), BorderStyle::Thick);
    assert_eq!(BorderStyle::Thick.cycle(1), BorderStyle::Plain);
}

#[test]
fn theme_fields_show_and_keep_their_settings() {
    let mut theme = Theme::default();
    assert_eq!(theme.field_value(3), "#cba6f7");
    assert_eq!(theme.field_value(16), "rounded");
    assert!(theme.field_color(0).is_none());
    let before = theme.clone();
    assert!(theme.set_field_value(3, "nope").is_err());
    assert_eq!(theme, before);
    theme.cycle_field(3, 1);
    assert_eq!(theme.field_value(3), "#89dceb");
    theme.cycle_field(3, -1);
    assert_eq!(theme.field_value(3), "#cba6f7");
}

#[test]
fn config_rejects_settings_out_of_range() {
    let mut config = Config::default();
    assert!(config.finish("/etc/lapi-launcher", &Some("/home/me".into())).is_ok());
    assert_eq!(config.logo.path.as_deref(), Some("/etc/lapi-launcher/logo.png"));

    let mut config = Config::default();
    config.logo.height = 0;
    assert_eq!(
        config.finish("/etc", &None).unwrap_err(),
        "logo.height debe estar entre 3 y 16"
    );
    let mut config = Config::default();
    config.logo.width = 61;
    assert_eq!(config.finish("/etc", &None).unwrap_err(), "logo.width debe estar entre 8 y 60");
    let mut config = Config::default();
    config.launcher.recent_limit = 101;
    assert_eq!(
        config.finish("/etc", &None).unwrap_err(),
        "launcher.recent_limit no puede superar 100"
    );
    let mut config = Config::default();
    config.launcher.terminal = vec![String::new()];
    assert_eq!(
        config.finish("/etc", &None).unwrap_err(),
        "launcher.terminal contiene un argumento vacío"
    );
    let mut config = Config::default();
    config.logo.path = Some("~/logo.png".into());
    assert_eq!(config.finish("/etc", &None).unwrap_err(), "HOME debe contener una ruta absoluta");
    let mut config = Config::default();
    config.applications.extra_dirs = vec!["apps".into(), "/opt/apps".into()];
    config.applications.desktop_dir = Some("~".into());
    config.finish("/cfg", &Some("/home/me".into())).unwrap();
    assert_eq!(config.applications.extra_dirs, ["/cfg/apps", "/opt/apps"]);
    assert_eq!(config.applications.desktop_dir.as_deref(), Some("/home/me/"));
}

#[test]
fn the_user_file_comes_before_the_global_and_old_ones() {
    assert_eq!(config_source(true, true, true), ConfigSource::Layered);
    assert_eq!(config_source(true, false, true), ConfigSource::User);
    assert_eq!(config_source(false, true, true), ConfigSource::Global);
    assert_eq!(config_source(false, false, true), ConfigSource::Legacy);
    assert_eq!(config_source(false, false, false), ConfigSource::Default);
}

#[test]
fn an_old_official_logo_becomes_portable() {
    let mut config = Config::default();
    config.logo.path = Some("/opt/lapi//logo.png".into());
    config.migrate_legacy_logo("/opt/lapi/logo.png", true);
    assert_eq!(config.logo.path.as_deref(), Some("./logo.png"));
    let mut config = Config::default();
    config.logo.path = Some("/opt/lapi/logo.png".into());
    config.migrate_legacy_logo("/opt/lapi/logo.png", false);
    assert_eq!(config.logo.path.as_deref(), Some("/opt/lapi/logo.png"));
}
