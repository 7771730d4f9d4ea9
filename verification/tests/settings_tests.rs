use lekhani_latex::settings::{
    is_json, settings_with_api_key, settings_with_theme, settings_without_api_key,
    api_key_from_settings, initial_api_key, theme_from_settings, newer_version, os_prefers_dark, theme_from_name, theme_name, update_prompt,
};
use lekhani_latex::types::Theme;

#[test]
fn theme_names_round_trip() {
    for t in [Theme::Dark, Theme::Light, Theme::System] {
        assert_eq!(theme_from_name(Some(theme_name(t))), t);
    }
    assert_eq!(theme_name(Theme::Dark), "Dark");
    assert_eq!(theme_from_name(Some("dark")), Theme::System);
    assert_eq!(theme_from_name(None), Theme::System);
}

#[test]
fn theme_resolution() {
    assert_eq!(Theme::Dark.resolve(Some(false)), Theme::Dark);
    assert_eq!(Theme::Light.resolve(Some(true)), Theme::Light);
    assert_eq!(Theme::System.resolve(Some(false)), Theme::Light);
    assert_eq!(Theme::System.resolve(Some(true)), Theme::Dark);
    assert_eq!(Theme::System.resolve(None), Theme::Dark);
}

#[test]
fn desktop_colour_preference() {
    assert_eq!(os_prefers_dark("'prefer-dark'\n"), Some(true));
    assert_eq!(os_prefers_dark("'prefer-light'\n"), Some(false));
    assert_eq!(os_prefers_dark("'default'\n"), Some(false));
    assert_eq!(os_prefers_dark(""), None);
}

#[test]
fn api_key_sources() {
    assert_eq!(initial_api_key(Some("saved"), Some("env")), ("saved".to_string(), true));
    assert_eq!(initial_api_key(Some(""), Some("env")), ("env".to_string(), true));
    assert_eq!(initial_api_key(None, Some("")), (String::new(), false));
    assert_eq!(initial_api_key(None, None), (String::new(), false));
}

#[test]
fn release_versions() {
    let json = r#"{"url":"x","tag_name": "v1.4.0","name":"r"}"#;
    assert_eq!(newer_version(json, "1.3.0"), Some("1.4.0".to_string()));
    assert_eq!(newer_version(json, "1.4.0"), None);
    assert_eq!(newer_version(r#"{"tag_name":"vv2"}"#, "1"), Some("2".to_string()));
    assert_eq!(newer_version(r#"{"name":"x"}"#, "1"), None);
    assert_eq!(newer_version(r#"{"tag_name": 3}"#, "1"), None);
}

#[test]
fn update_prompts() {
    assert_eq!(update_prompt(true, Some("2.0".to_string())), Some("2.0".to_string()));
    assert_eq!(update_prompt(true, None), Some("Unknown".to_string()));
    assert_eq!(update_prompt(false, Some("2.0".to_string())), None);
}

#[test]
fn settings_file_contents() {
    assert_eq!(theme_from_settings(Some(r#"{"theme":"Light","llm_api_key":"sk-1"}"#)), Theme::Light);
    assert_eq!(theme_from_settings(Some(r#"{"theme":"Blue"}"#)), Theme::System);
    assert_eq!(theme_from_settings(Some("not json")), Theme::System);
    assert_eq!(theme_from_settings(Some(r#"{"theme":3}"#)), Theme::System);
    assert_eq!(theme_from_settings(None), Theme::System);
    assert_eq!(api_key_from_settings(Some(r#"{"llm_api_key":"sk-1"}"#)), Some("sk-1".to_string()));
    assert_eq!(api_key_from_settings(Some(r#"{"llm_api_key":""}"#)), None);
    assert_eq!(api_key_from_settings(Some("[1,2]")), None);
    assert_eq!(api_key_from_settings(None), None);
}

#[test]
fn saving_the_theme_keeps_other_settings() {
    let t = settings_with_theme(Some(r#"{"a":1,"theme":"Light"}"#), Theme::Dark).unwrap();
    assert_eq!(t, "{\n  \"a\": 1,\n  \"theme\": \"Dark\"\n}");
    assert_eq!(theme_from_settings(Some(&t)), Theme::Dark);
    let t = settings_with_theme(None, Theme::Light).unwrap();
    assert_eq!(theme_from_settings(Some(&t)), Theme::Light);
    let t = settings_with_theme(Some("not json"), Theme::System).unwrap();
    assert_eq!(t, "{\n  \"theme\": \"System\"\n}");
    let t = settings_with_theme(Some("null"), Theme::Dark).unwrap();
    assert_eq!(theme_from_settings(Some(&t)), Theme::Dark);
    assert_eq!(settings_with_theme(Some("[1]"), Theme::Dark), None);
}

#[test]
fn saving_and_forgetting_the_api_key() {
    let t = settings_with_api_key(Some(r#"{"theme":"Dark"}"#), "sk-2").unwrap();
    assert_eq!(api_key_from_settings(Some(&t)), Some("sk-2".to_string()));
    assert_eq!(theme_from_settings(Some(&t)), Theme::Dark);
    let t = settings_with_api_key(Some(r#"{"llm_api_key":"sk-1"}"#), "sk \"q\"").unwrap();
    assert_eq!(api_key_from_settings(Some(&t)), Some("sk \"q\"".to_string()));
    assert_eq!(settings_with_api_key(Some("3"), "sk"), None);
    let t = settings_without_api_key(Some(r#"{"llm_api_key":"sk-1","theme":"Dark"}"#));
    assert_eq!(t, "{\n  \"theme\": \"Dark\"\n}");
    assert_eq!(api_key_from_settings(Some(&t)), None);
    assert_eq!(settings_without_api_key(None), "{}");
    assert_eq!(settings_without_api_key(Some("[1]")), "[\n  1\n]");
}

#[test]
fn json_documents() {
    assert!(is_json(r#"{"theme":"Dark"}"#));
    assert!(is_json("[1, 2]"));
    assert!(is_json("\"text\""));
    assert!(!is_json("theme = Dark"));
    assert!(!is_json(""));
}
