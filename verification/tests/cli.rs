use lapi_launcher::cli::{drawing, legacy_graphics, parse_arguments, query_terminal, Command, Drawing};
use lapi_launcher::config::ImageProtocol;
use lapi_launcher::i18n::{Language, Translator};

fn parse(args: &[&str]) -> Result<Command, String> {
    let text: Vec<Option<String>> = args.iter().map(|a| Some(a.to_string())).collect();
    let shown: Vec<String> = args.iter().map(|a| a.to_string()).collect();
    parse_arguments(&text, &shown, Translator::new(Language::English, &Vec::new()))
}

#[test]
fn command_line_options_are_read_in_order() {
    assert_eq!(parse(&[]).unwrap(), Command::Run { list: false, no_images: false });
    assert_eq!(parse(&["--list", "--no-images"]).unwrap(), Command::Run { list: true, no_images: true });
    assert_eq!(parse(&["--list", "-h", "--bogus"]).unwrap(), Command::Help);
    assert_eq!(parse(&["-V"]).unwrap(), Command::Version);
    assert_eq!(parse(&["--print-default-config"]).unwrap(), Command::PrintDefaultConfig);
    assert_eq!(parse(&["--bogus"]).unwrap_err(), "Unknown option: --bogus. Use --help");
    assert!(parse(&["--config"]).unwrap_err().contains("/etc/lapi-launcher/config.toml"));
    let odd = parse_arguments(&vec![None], &vec!["\u{fffd}".to_string()], Translator::new(Language::Spanish, &Vec::new()));
    assert_eq!(odd.unwrap_err(), "Opción desconocida: \u{fffd}. Usa --help");
}

#[test]
fn image_drawing_follows_the_setting_and_the_terminal() {
    assert!(legacy_graphics(ImageProtocol::KittyLegacy, &None, true, true));
    assert!(legacy_graphics(ImageProtocol::Auto, &Some("220400".into()), false, false));
    assert!(!legacy_graphics(ImageProtocol::Auto, &Some("220399".into()), false, false));
    assert!(!legacy_graphics(ImageProtocol::Auto, &Some("230000".into()), true, false));
    assert!(!legacy_graphics(ImageProtocol::Kitty, &Some("230000".into()), false, false));
    assert!(!query_terminal(ImageProtocol::Halfblocks));
    assert_eq!(drawing(ImageProtocol::Auto, true, true), Drawing::Iterm2);
    assert_eq!(drawing(ImageProtocol::Auto, true, false), Drawing::Detected);
    assert_eq!(drawing(ImageProtocol::Sixel, true, true), Drawing::Sixel);
}
