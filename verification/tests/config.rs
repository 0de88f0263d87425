use codexx::config::{
    current_model_provider, disable_instruction_edit, ensure_table, extract_providers,
    instruction_config_edit, official_config_edit, parse_toml_document, require_model,
    set_top_level_defaults, string_value, switch_provider_config, bool_from_item,
};
use codexx::error::CodexxError;
use codexx::toml::TomlKind;

const SAMPLE: &str = r#"model = " gpt-5.5 "
model_provider = "custom"
model_instructions_file = "./gpt5.5-unrestricted.md"

[model_providers.custom]
name = "Relay"
base_url = "https://relay.example/v1"
wire_api = "responses"
requires_openai_auth = true

[model_providers.other]
name = "Other"
"#;

#[test]
fn blank_config_is_an_empty_document() {
    let doc = parse_toml_document("/c/config.toml", "  \n\t").unwrap();
    assert_eq!(doc.to_string(), "");
    assert_eq!(string_value(&doc, "model"), None);
}

#[test]
fn broken_config_is_reported_against_its_path() {
    match parse_toml_document("/c/config.toml", "model = ") {
        Err(CodexxError::Toml { path, .. }) => assert_eq!(path, "/c/config.toml"),
        other => panic!("unexpected: {:?}", other.map(|d| d.to_string())),
    }
}

#[test]
fn string_values_are_trimmed_and_blank_ones_dropped() {
    let doc = parse_toml_document("p", "a = \"  x \"\nb = \"   \"\nc = 3\n").unwrap();
    assert_eq!(string_value(&doc, "a"), Some("x".to_string()));
    assert_eq!(string_value(&doc, "b"), None);
    assert_eq!(string_value(&doc, "c"), None);
    assert_eq!(string_value(&doc, "d"), None);
}

#[test]
fn bool_items() {
    assert_eq!(bool_from_item(&TomlKind::Bool(false)), Some(false));
    assert_eq!(bool_from_item(&TomlKind::Str("true".to_string())), None);
    assert_eq!(bool_from_item(&TomlKind::Absent), None);
}

#[test]
fn provider_tables_are_listed_in_order() {
    let doc = parse_toml_document("p", SAMPLE).unwrap();
    let ps = extract_providers(&doc, Some("custom"));
    assert_eq!(ps.len(), 2);
    assert_eq!(ps[0].id, "custom");
    assert_eq!(ps[0].name.as_deref(), Some("Relay"));
    assert_eq!(ps[0].base_url.as_deref(), Some("https://relay.example/v1"));
    assert_eq!(ps[0].wire_api.as_deref(), Some("responses"));
    assert_eq!(ps[0].requires_openai_auth, Some(true));
    assert!(ps[0].is_current);
    assert_eq!(ps[1].id, "other");
    assert_eq!(ps[1].base_url, None);
    assert_eq!(ps[1].requires_openai_auth, None);
    assert!(!ps[1].is_current);
    let none = parse_toml_document("p", "model = \"m\"\n").unwrap();
    assert!(extract_providers(&none, None).is_empty());
}

#[test]
fn defaults_are_added_once() {
    let mut doc = parse_toml_document("p", "model_reasoning_effort = \"low\"\n").unwrap();
    set_top_level_defaults(&mut doc);
    let once = doc.to_string();
    assert_eq!(once, "model_reasoning_effort = \"low\"\ndisable_response_storage = true\n");
    set_top_level_defaults(&mut doc);
    assert_eq!(doc.to_string(), once);
}

#[test]
fn ensure_table_refuses_a_value() {
    let mut doc = parse_toml_document("p", "model = \"m\"\n").unwrap();
    match ensure_table(&mut doc, "model") {
        Err(CodexxError::Config(m)) => assert_eq!(m, "model 不是 TOML table"),
        other => panic!("unexpected: {:?}", other),
    }
    assert!(ensure_table(&mut doc, "fresh").is_ok());
    assert!(doc.get("fresh").unwrap().is_table());
}

#[test]
fn switch_reads_back_what_it_wrote() {
    let mut doc = parse_toml_document("p", SAMPLE).unwrap();
    switch_provider_config(&mut doc, "Acme", "https://acme.test", "gpt-x", None, Some(false)).unwrap();
    assert_eq!(string_value(&doc, "model_provider"), Some("custom".to_string()));
    assert_eq!(string_value(&doc, "model"), Some("gpt-x".to_string()));
    assert_eq!(string_value(&doc, "model_reasoning_effort"), Some("high".to_string()));
    let ps = extract_providers(&doc, Some("custom"));
    assert_eq!(ps[0].name.as_deref(), Some("Acme"));
    assert_eq!(ps[0].base_url.as_deref(), Some("https://acme.test"));
    assert_eq!(ps[0].wire_api.as_deref(), Some("responses"));
    assert_eq!(ps[0].requires_openai_auth, Some(false));
    assert_eq!(ps[1].name.as_deref(), Some("Other"));
    assert_eq!(
        string_value(&doc, "model_instructions_file"),
        Some("./gpt5.5-unrestricted.md".to_string())
    );
}

#[test]
fn switch_refuses_a_providers_value() {
    let mut doc = parse_toml_document("p", "model_providers = 3\n").unwrap();
    match switch_provider_config(&mut doc, "A", "u", "m", None, None) {
        Err(CodexxError::Config(m)) => assert_eq!(m, "model_providers 不是 TOML table"),
        other => panic!("unexpected: {:?}", other),
    }
    let mut doc = parse_toml_document("p", "[model_providers]\ncustom = 1\n").unwrap();
    match switch_provider_config(&mut doc, "A", "u", "m", None, None) {
        Err(CodexxError::Config(m)) => assert_eq!(m, "custom 不是 TOML table"),
        other => panic!("unexpected: {:?}", other),
    }
}

#[test]
fn official_edit_drops_the_custom_route() {
    let mut doc = parse_toml_document("p", "model = \"a\"\nmodel_provider = \"custom\"\n[model_providers.custom]\nname = \"x\"\n").unwrap();
    official_config_edit(&mut doc, Some("  gpt-5.5 ".to_string()));
    assert_eq!(string_value(&doc, "model_provider"), None);
    assert!(doc.get("model_providers").is_none());
    assert_eq!(string_value(&doc, "model"), Some("gpt-5.5".to_string()));

    let mut doc = parse_toml_document("p", SAMPLE).unwrap();
    official_config_edit(&mut doc, Some("   ".to_string()));
    let ps = extract_providers(&doc, None);
    assert_eq!(ps.len(), 1);
    assert_eq!(ps[0].id, "other");
    assert_eq!(string_value(&doc, "model"), Some("gpt-5.5".to_string()));
}

#[test]
fn instruction_edit_and_disable() {
    let mut doc = parse_toml_document("p", "").unwrap();
    instruction_config_edit(&mut doc, "./gpt5.4-unrestricted.md");
    assert_eq!(string_value(&doc, "model"), Some("gpt-5.5".to_string()));
    assert_eq!(string_value(&doc, "model_instructions_file"), Some("./gpt5.4-unrestricted.md".to_string()));
    assert!(disable_instruction_edit(&mut doc));
    assert_eq!(string_value(&doc, "model_instructions_file"), None);
    assert!(!disable_instruction_edit(&mut doc));

    let mut doc = parse_toml_document("p", "model = \"keep\"\n").unwrap();
    instruction_config_edit(&mut doc, "./x.md");
    assert_eq!(string_value(&doc, "model"), Some("keep".to_string()));
}

#[test]
fn provider_toml_must_name_a_model() {
    let doc = parse_toml_document("p", "model_provider = \"x\"\n").unwrap();
    match require_model(&doc) {
        Err(CodexxError::Config(m)) => assert_eq!(m, "config.toml 必须包含 model"),
        other => panic!("unexpected: {:?}", other),
    }
    let doc = parse_toml_document("p", "model = \"m\"\n").unwrap();
    assert!(require_model(&doc).is_ok());
}

#[test]
fn current_provider_prefers_the_named_one() {
    assert_eq!(current_model_provider("p", SAMPLE, Some("  mine ".to_string())).unwrap(), "mine");
    assert_eq!(current_model_provider("p", SAMPLE, Some("  ".to_string())).unwrap(), "custom");
    assert_eq!(current_model_provider("p", "", None).unwrap(), "openai");
    assert!(matches!(current_model_provider("p", "=", None), Err(CodexxError::Toml { .. })));
}
