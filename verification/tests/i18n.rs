use lapi_launcher::i18n::{Language, Translator};

#[test]
fn explicit_language_overrides_the_environment() {
    let spanish_environment = vec!["es_ES.UTF-8".to_string()];
    assert_eq!(Translator::new(Language::Spanish, &Vec::new()).search(), " Buscar ");
    assert_eq!(Translator::new(Language::English, &spanish_environment).search(), " Search ");
    assert_eq!(
        Translator::new(Language::English, &spanish_environment).operating_system(),
        "Operating system"
    );
}
