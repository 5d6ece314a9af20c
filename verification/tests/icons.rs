use lapi_launcher::icons::{
    folder_distance, icon_candidates, icon_roots, parse_index_theme, pixmap_folders, sort_folders,
    Source, ThemeWalk,
};

#[test]
fn index_theme_lists_folders_and_parents_of_its_icon_section() {
    let (folders, parents) = parse_index_theme(
        "[Icon Theme]\nName=Test\nInherits= hicolor , ,breeze\nDirectories=16x16/apps, 256x256/apps,scalable/apps\n\n[16x16/apps]\nSize=16\nDirectories=ignored\n",
    );
    assert_eq!(folders, ["16x16/apps", "256x256/apps", "scalable/apps"]);
    assert_eq!(parents, ["hicolor", "breeze"]);
    let (folders, _) = parse_index_theme("[Icon Theme]\nScaledDirectories=32x32@2/apps\n");
    assert_eq!(folders, ["32x32@2/apps"]);
}

#[test]
fn folders_nearest_to_256_pixels_come_first() {
    assert_eq!(folder_distance("48x48/apps"), 208);
    assert_eq!(folder_distance("512x512/apps"), 256);
    assert_eq!(folder_distance("scalable/apps"), 256);
    let mut folders: Vec<String> = ["16x16/apps", "scalable/apps", "256x256/apps", "512x512/apps", "128x128/apps"]
        .iter()
        .map(|s| s.to_string())
        .collect();
    sort_folders(&mut folders);
    assert_eq!(
        folders,
        ["256x256/apps", "128x128/apps", "16x16/apps", "scalable/apps", "512x512/apps"]
    );
}

#[test]
fn theme_walk_visits_each_theme_once_and_follows_parents() {
    let roots = vec!["/home/me/.icons".to_string(), "/usr/share/icons".to_string()];
    let mut walk = ThemeWalk::new(roots, Some("Papirus".to_string()));
    assert_eq!(walk.next_theme().as_deref(), Some("Papirus"));
    walk.visit(
        "Papirus",
        &vec![None, Some("[Icon Theme]\nInherits=breeze\nDirectories=64x64/apps,256x256/apps\n".to_string())],
    );
    assert_eq!(
        walk.directories,
        [
            "/home/me/.icons",
            "/usr/share/icons",
            "/usr/share/icons/Papirus",
            "/usr/share/icons/Papirus/256x256/apps",
            "/usr/share/icons/Papirus/64x64/apps",
        ]
    );
    assert_eq!(walk.next_theme().as_deref(), Some("breeze"));
    walk.visit("breeze", &vec![None, None]);
    assert_eq!(walk.next_theme().as_deref(), Some("hicolor"));
    walk.visit("hicolor", &vec![None, None]);
    assert_eq!(walk.next_theme().as_deref(), Some("Adwaita"));
    walk.visit("Adwaita", &vec![None, None]);
    assert_eq!(walk.next_theme().as_deref(), Some("oxygen"));
    walk.visit("oxygen", &vec![None, None]);
    assert_eq!(walk.next_theme(), None);
}

#[test]
fn icon_names_stand_for_image_files() {
    let dirs = vec!["/icons".to_string()];
    assert_eq!(
        icon_candidates("firefox", &dirs),
        [
            "/icons/firefox.png",
            "/icons/firefox.webp",
            "/icons/firefox.ico",
            "/icons/firefox.jpg",
            "/icons/firefox.jpeg",
            "/icons/firefox.gif",
        ]
    );
    assert_eq!(icon_candidates("logo.svg", &dirs)[0], "/icons/logo.png");
    assert_eq!(icon_candidates("logo.png", &dirs)[0], "/icons/logo.png");
    assert_eq!(icon_candidates("logo.png", &dirs)[1], "/icons/logo.png");
    assert_eq!(icon_candidates("org.gnome.Foo", &dirs)[0], "/icons/org.gnome.Foo.png");
    assert!(icon_candidates("a/b", &dirs).is_empty());
    assert_eq!(
        icon_candidates("/opt/app/icon.svg", &dirs),
        [
            "/opt/app/icon.png",
            "/opt/app/icon.webp",
            "/opt/app/icon.ico",
            "/opt/app/icon.jpg",
            "/opt/app/icon.jpeg",
            "/opt/app/icon.gif",
        ]
    );
    assert_eq!(icon_candidates("/opt/app/icon.gif", &dirs)[0], "/opt/app/icon.gif");
    assert_eq!(icon_candidates("/opt/app/", &dirs)[0], "/opt/app.png");
}

#[test]
fn icon_folders_come_from_home_and_the_data_folders() {
    let data = vec!["/usr/share".to_string()];
    assert_eq!(icon_roots(&Some("/home/me".into()), &data), ["/home/me/.icons", "/usr/share/icons"]);
    assert_eq!(icon_roots(&None, &data)[0], ".icons");
    assert_eq!(pixmap_folders(&data), ["/usr/share/pixmaps"]);
    assert_ne!(Source::File("a".into()), Source::Icon("a".into()));
}

#[test]
fn only_a_missing_logo_file_is_reported() {
    assert_eq!(
        lapi_launcher::icons::image_warning(&Source::File("logo.png".into()), false),
        Some("No se pudo cargar el logo configurado")
    );
    assert_eq!(lapi_launcher::icons::image_warning(&Source::File("logo.png".into()), true), None);
    assert_eq!(lapi_launcher::icons::image_warning(&Source::Icon("firefox".into()), false), None);
}
