use codex_status::config::{label, provider, provider_in};
use codex_status::json::Json;

#[test]
fn provider_reads_only_the_selected_display_name() {
    let source = r#"
model_provider = "gateway"

[model_providers.gateway]
name = "Work gateway"
base_url = "https://example.invalid"
env_key = "PRIVATE_KEY"

[model_providers.other]
name = "Other"
"#;
    assert_eq!(provider_in(source), Some("Work gateway".into()));
}

#[test]
fn provider_falls_back_to_a_valid_identifier() {
    assert_eq!(provider_in("model_provider = \"gateway\"\n"), Some("gateway".into()));
    assert_eq!(provider_in("model_provider = \"bad\\nlabel\"\n"), None);
}

#[test]
fn labels_are_short_visible_text() {
    assert_eq!(label("Work"), Some("Work".to_owned()));
    assert_eq!(label(""), None);
    assert_eq!(label("tab\there"), None);
    assert_eq!(label(&"x".repeat(200)), None);
    assert_eq!(provider_in("other = 1\n"), None);
}

#[test]
fn text_that_is_not_toml_selects_no_provider() {
    assert_eq!(provider_in("model_provider = "), None);
    assert_eq!(provider_in("model_provider = 7\n"), None);
}

#[test]
fn a_provider_without_a_name_is_shown_by_its_identifier() {
    let source = "model_provider = \"local\"\n[model_providers.local]\nbase_url = \"http://localhost\"\n";
    assert_eq!(provider_in(source), Some("local".into()));
}

#[test]
fn floats_and_dates_in_a_configuration_are_read_too() {
    let source = "ratio = 0.5\nwhen = 1979-05-27T07:32:00Z\nmodel_provider = \"gateway\"\n[model_providers.gateway]\nname = \"Gate\"\nweight = 1.5\n";
    assert_eq!(provider_in(source), Some("Gate".into()));
}

#[test]
fn a_parsed_configuration_selects_its_provider() {
    let config = Json::Object(vec![("model_provider".to_owned(), Json::Str("gateway".to_owned()))]);
    assert_eq!(provider(&config), Some("gateway".into()));
    assert_eq!(provider(&Json::Null), None);
}
