use lapi_launcher::system::{is_graphics_card, memory_total, pci_name};

#[test]
fn memory_total_remains_separate_from_disk_usage() {
    assert_eq!(
        memory_total("MemTotal: 8388608 kB\nMemAvailable: 6291456 kB\n"),
        Some(8_388_608)
    );
    assert_eq!(memory_total("MemTotal: invalid kB"), None);
    assert_eq!(memory_total("MemTotal: 0 kB"), None);
    assert_eq!(memory_total("MemAvailable: 100 kB"), None);
}

#[test]
fn pci_names_ignore_subsystems_and_stop_at_the_next_vendor() {
    let ids = "# Devices\n1002  AMD\n\t164e  Raphael\n\t\t1002 73ff  Subsystem\n\t73ff  Radeon RX 6600\n10de  NVIDIA\n\t164e  Other GPU\n\t9999  Other vendor device\n";
    assert_eq!(
        pci_name(ids, 0x1002, 0x73ff).as_deref(),
        Some("AMD Radeon RX 6600")
    );
    assert_eq!(
        pci_name(ids, 0x10de, 0x164e).as_deref(),
        Some("NVIDIA Other GPU")
    );
    assert_eq!(
        pci_name(ids, 0x1002, 0x9999).as_deref(),
        Some("AMD [1002:9999]")
    );
    assert_eq!(pci_name(ids, 0x8086, 0x164e), None);
}

#[test]
fn graphics_cards_exclude_connectors_and_render_nodes() {
    assert!(is_graphics_card("card0"));
    assert!(is_graphics_card("card12"));
    assert!(!is_graphics_card("card"));
    assert!(!is_graphics_card("card0-DP-1"));
    assert!(!is_graphics_card("renderD128"));
}

use lapi_launcher::i18n::{Language, Translator};
use lapi_launcher::system::{
    cpu_name, desktop_icon, env_value, graphics_name, graphics_rows, is_display_class, parse_pci_id,
    parse_release, read_value, release_value, SystemFacts, SystemInfo,
};

fn english() -> Translator {
    Translator::new(Language::English, &Vec::new())
}

#[test]
fn pci_identifiers_read_hexadecimal_with_or_without_prefix() {
    assert_eq!(parse_pci_id("0x1002\n"), Some(0x1002));
    assert_eq!(parse_pci_id("10de"), Some(0x10de));
    assert_eq!(parse_pci_id("0x0x8086"), Some(0x8086));
    assert_eq!(parse_pci_id("+FF"), Some(0xff));
    assert_eq!(parse_pci_id("0x10000"), None);
    assert_eq!(parse_pci_id(""), None);
    assert!(is_display_class("0x030000\n"));
    assert!(!is_display_class("0x020000"));
}

#[test]
fn graphics_names_prefer_files_then_pci_names_then_the_driver() {
    let ids = "1002  AMD\n\t73ff  Radeon RX 6600\n";
    assert_eq!(
        graphics_name(vec![Some("  Laptop GPU \n".into()), None], None, None, ids, None).as_deref(),
        Some("Laptop GPU")
    );
    assert_eq!(
        graphics_name(vec![Some(" ".into()), None], Some("0x1002".into()), Some("0x73ff".into()), ids, None).as_deref(),
        Some("AMD Radeon RX 6600")
    );
    assert_eq!(
        graphics_name(vec![None, None], Some("0x8086".into()), Some("0x9a49".into()), ids, Some("i915".into())).as_deref(),
        Some("Intel [8086:9a49]")
    );
    assert_eq!(
        graphics_name(vec![None, None], None, Some("0x9a49".into()), ids, Some("i915".into())).as_deref(),
        Some("i915")
    );
    assert_eq!(graphics_rows(&vec!["A".into(), "B".into()], english())[1].0, "GPU 2");
    assert_eq!(graphics_rows(&vec!["A".into()], english())[0].0, "GPU");
    assert_eq!(graphics_rows(&Vec::new(), english())[0].1, "Unavailable");
}

#[test]
fn os_release_values_lose_their_quotes_and_later_lines_win() {
    let pairs = parse_release("# comment\nNAME=\"Fedora Linux\"\nID=fedora\nNAME='Other'\nbroken\n");
    assert_eq!(pairs.len(), 3);
    assert_eq!(release_value(&pairs, "NAME").as_deref(), Some("Other"));
    assert_eq!(release_value(&pairs, "ID").as_deref(), Some("fedora"));
    assert_eq!(release_value(&pairs, "LOGO"), None);
}

#[test]
fn processor_and_values_read_from_system_files() {
    assert_eq!(
        cpu_name("processor\t: 0\nmodel name\t: Fixture CPU  \n", english()),
        "Fixture CPU"
    );
    assert_eq!(cpu_name("nothing here", english()), "Unavailable");
    assert_eq!(read_value(Some(" host \n".into())), "host");
    assert_eq!(read_value(None), "No disponible");
    assert_eq!(env_value(Some(String::new())), "No disponible");
    assert_eq!(env_value(Some("wayland".into())), "wayland");
    assert_eq!(desktop_icon("KDE"), "kde");
    assert_eq!(desktop_icon("ubuntu:GNOME"), "org.gnome.Settings");
    assert_eq!(desktop_icon("XFCE"), "org.xfce.settings.manager");
    assert_eq!(desktop_icon("sway"), "preferences-desktop");
}

#[test]
fn system_rows_are_built_from_what_was_read() {
    let facts = SystemFacts {
        os_release: "PRETTY_NAME=\"Fixture OS 1\"\nLOGO=fixture-logo\n".into(),
        desktop: Some("KDE".into()),
        hostname: Some("box\n".into()),
        cpuinfo: "model name : CPU X\n".into(),
        product_name: None,
        threads: Some(8),
        graphics: vec!["GPU A".into()],
        memory: Some("7.8 GiB".into()),
        storage: vec![("Disk".into(), "Unavailable".into())],
        kernel: Some("6.9.0\n".into()),
        architecture: "x86_64".into(),
        uptime_seconds: Some(3 * 3600 + 25 * 60 + 7),
        session: None,
        session_type: Some("wayland".into()),
        terminal: Some("xterm".into()),
        shell: Some("/bin/bash".into()),
    };
    let info = SystemInfo::read(&facts, english());
    assert_eq!(info.sections[0].summary, "Fixture OS 1");
    assert_eq!(info.sections[0].details[2].1, "3 h 25 min");
    assert_eq!(info.sections[1].details[0].1, "No disponible");
    assert_eq!(info.sections[2].summary, "box");
    assert_eq!(info.sections[2].details[0].1, "No disponible");
    assert_eq!(info.sections[2].details[2].1, "8");
    assert_eq!(info.sections[2].details[3], ("GPU".to_string(), "GPU A".to_string()));
    assert_eq!(info.sections[2].details.len(), 6);
    assert_eq!(info.os_icon, "fixture-logo");
    assert_eq!(info.desktop_icon, "kde");
}
