use espeak_provider::catalog::{
    audio_format, build_catalog, language_list, normalize_identifier, normalize_language, RawVoice,
    VoiceDescriptor, FULL_FEATURES, REDUCED_FEATURES,
};
use espeak_provider::provider_name;
use espeak_provider::request::select_voice_name;

fn raw(name: Option<&str>, identifier: Option<&str>, languages: &[&str]) -> RawVoice {
    RawVoice {
        name: name.map(String::from),
        identifier: identifier.map(String::from),
        languages: languages.iter().map(|s| s.to_string()).collect(),
    }
}

#[test]
fn identifier_prefix_is_stripped() {
    assert_eq!(normalize_identifier("!v/en-us"), "en-us");
    assert_eq!(normalize_identifier("!v/!v/max"), "max");
    assert_eq!(normalize_identifier("mb/mb-en1"), "mb/mb-en1");
    assert_eq!(normalize_identifier("!v"), "!v");
    assert_eq!(normalize_identifier(""), "");
}

#[test]
fn audio_format_names_the_rate() {
    assert_eq!(audio_format(22050), "audio/x-raw,format=S16LE,channels=1,rate=22050");
    assert_eq!(audio_format(16000), "audio/x-raw,format=S16LE,channels=1,rate=16000");
    assert_eq!(audio_format(0), "audio/x-raw,format=S16LE,channels=1,rate=0");
}

#[test]
fn feature_profiles() {
    assert_eq!(REDUCED_FEATURES, 0x1d8e0);
    assert_eq!(FULL_FEATURES, 0x1d8e3);
}

#[test]
fn language_tags_are_normalized() {
    assert_eq!(normalize_language("en-us"), "en-US");
    assert_eq!(normalize_language("EN-gb"), "en-GB");
    assert_eq!(normalize_language("de"), "de");
}

#[test]
fn malformed_language_tag_passes_through() {
    assert_eq!(normalize_language("en_US--x"), "en_US--x");
    assert_eq!(normalize_language(""), "");
}

#[test]
fn language_list_is_sorted_and_deduplicated() {
    let voices = vec![
        raw(Some("English"), Some("gmw/en"), &["en-gb", "en"]),
        raw(Some("German"), Some("gmw/de"), &["de", "EN-GB"]),
        raw(None, Some("x"), &["fr", "bad_tag"]),
    ];
    assert_eq!(language_list(&voices), vec!["bad_tag", "de", "en", "en-GB", "fr"]);
    assert!(language_list(&Vec::new()).is_empty());
}

#[test]
fn catalog_lists_both_families() {
    let all = vec![
        raw(Some("English"), Some("gmw/en"), &["en"]),
        raw(Some("German"), Some("gmw/de"), &["de"]),
    ];
    let primary = vec![
        raw(Some("Max"), Some("!v/max"), &[]),
        raw(None, Some("!v/anon"), &[]),
        raw(Some("Nameless id"), None, &[]),
    ];
    let auxiliary = vec![raw(Some("mb-en1"), Some("mb/mb-en1"), &[])];
    let catalog = build_catalog(&all, &primary, &auxiliary, 22050);
    let langs = vec!["de".to_string(), "en".to_string()];
    assert_eq!(
        catalog,
        vec![
            VoiceDescriptor {
                name: "Max".to_string(),
                identifier: "max".to_string(),
                audio_format: "audio/x-raw,format=S16LE,channels=1,rate=22050".to_string(),
                features: FULL_FEATURES,
                languages: langs.clone(),
            },
            VoiceDescriptor {
                name: "mb-en1".to_string(),
                identifier: "mb/mb-en1".to_string(),
                audio_format: "audio/x-raw,format=S16LE,channels=1,rate=16000".to_string(),
                features: REDUCED_FEATURES,
                languages: langs,
            },
        ]
    );
}

#[test]
fn catalog_builds_are_identical() {
    let all = vec![
        raw(Some("A"), Some("a"), &["pt-br", "es", "pt-BR"]),
        raw(Some("B"), Some("b"), &["es", "zh"]),
    ];
    let primary = vec![raw(Some("A"), Some("!v/a"), &[]), raw(Some("B"), Some("!v/b"), &[])];
    let first = build_catalog(&all, &primary, &Vec::new(), 22050);
    let second = build_catalog(&all, &primary, &Vec::new(), 22050);
    assert_eq!(first, second);
    assert_eq!(first[0].languages, vec!["es", "pt-BR", "zh"]);
}

#[test]
fn empty_engine_gives_empty_catalog() {
    assert!(build_catalog(&Vec::new(), &Vec::new(), &Vec::new(), 22050).is_empty());
}

#[test]
fn voice_name_selection() {
    assert_eq!(select_voice_name("mb/mb-en1", "de", "en"), "mb/mb-en1");
    assert_eq!(select_voice_name("max", "", "en"), "en+max");
    assert_eq!(select_voice_name("max", "de", "en"), "de+max");
    assert_eq!(select_voice_name("mb", "", "en"), "en+mb");
}

#[test]
fn provider_is_named() {
    assert_eq!(provider_name(), "eSpeak NG");
}
