use codexx::actions::{
    api_key_auth_text, disabled_config_text, instruction_config_text, official_auth_text,
    official_config_text, provider_toml_config, switch_config_text,
};
use codexx::error::CodexxError;

#[test]
fn switch_text_keeps_comments_and_sets_the_route() {
    let text = "# mine\nmodel = \"old\"\n";
    let out = switch_config_text("/c/config.toml", text, "Acme", "https://a.test", "gpt-x", Some("chat".to_string()), None).unwrap();
    assert!(out.starts_with("# mine\n"));
    let doc: toml_edit::DocumentMut = out.parse().unwrap();
    assert_eq!(doc["model"].as_str(), Some("gpt-x"));
    assert_eq!(doc["model_provider"].as_str(), Some("custom"));
    assert_eq!(doc["model_reasoning_effort"].as_str(), Some("high"));
    assert_eq!(doc["disable_response_storage"].as_bool(), Some(true));
    assert_eq!(doc["model_providers"]["custom"]["name"].as_str(), Some("Acme"));
    assert_eq!(doc["model_providers"]["custom"]["base_url"].as_str(), Some("https://a.test"));
    assert_eq!(doc["model_providers"]["custom"]["wire_api"].as_str(), Some("chat"));
    assert_eq!(doc["model_providers"]["custom"]["requires_openai_auth"].as_bool(), Some(true));
}

#[test]
fn switch_text_reports_a_broken_config() {
    match switch_config_text("/c/config.toml", "[[", "A", "u", "m", None, None) {
        Err(CodexxError::Toml { path, .. }) => assert_eq!(path, "/c/config.toml"),
        other => panic!("unexpected: {:?}", other),
    }
}

#[test]
fn official_text_removes_the_route() {
    let out = official_config_text("p", "model_provider = \"custom\"\nmodel = \"a\"\n", None).unwrap();
    assert_eq!(out, "model = \"a\"\n");
}

#[test]
fn instruction_text_points_at_the_file() {
    let out = instruction_config_text("p", "", "./gpt5.5-unrestricted.md").unwrap();
    let doc: toml_edit::DocumentMut = out.parse().unwrap();
    assert_eq!(doc["model"].as_str(), Some("gpt-5.5"));
    assert_eq!(doc["model_instructions_file"].as_str(), Some("./gpt5.5-unrestricted.md"));
}

#[test]
fn disabled_text_says_whether_it_removed() {
    let (removed, out) = disabled_config_text("p", "model = \"a\"\nmodel_instructions_file = \"./x.md\"\n").unwrap();
    assert!(removed);
    assert_eq!(out, "model = \"a\"\n");
    let (removed, out) = disabled_config_text("p", "model = \"a\"\n").unwrap();
    assert!(!removed);
    assert_eq!(out, "model = \"a\"\n");
}

#[test]
fn provider_toml_is_trimmed_and_needs_a_model() {
    assert_eq!(provider_toml_config("p", "model = \"m\"\n\n  \n").unwrap(), "model = \"m\"\n");
    match provider_toml_config("p", "   ") {
        Err(CodexxError::Config(m)) => assert_eq!(m, "config.toml 必须包含 model"),
        other => panic!("unexpected: {:?}", other),
    }
    assert!(matches!(provider_toml_config("/x/config.toml", "model ="), Err(CodexxError::Toml { .. })));
}

#[test]
fn api_key_is_stored_in_auth_json() {
    let out = api_key_auth_text(Some("{\"auth_mode\":\"apikey\"}".to_string()), "sk-1");
    assert_eq!(out, "{\n  \"OPENAI_API_KEY\": \"sk-1\",\n  \"auth_mode\": \"apikey\"\n}\n");
    let out = api_key_auth_text(Some("[1]".to_string()), "sk-2");
    assert_eq!(out, "{\n  \"OPENAI_API_KEY\": \"sk-2\"\n}\n");
    let out = api_key_auth_text(None, "sk-3");
    assert_eq!(out, "{\n  \"OPENAI_API_KEY\": \"sk-3\"\n}\n");
    let out = api_key_auth_text(Some("not json".to_string()), "sk-4");
    assert_eq!(out, "{\n  \"OPENAI_API_KEY\": \"sk-4\"\n}\n");
}

#[test]
fn official_login_must_be_an_object() {
    assert_eq!(official_auth_text("a", None).unwrap(), None);
    assert_eq!(official_auth_text("a", Some("  ".to_string())).unwrap(), None);
    assert_eq!(
        official_auth_text("a", Some(" {\"tokens\":{\"x\":1}} ".to_string())).unwrap(),
        Some("{\n  \"tokens\": {\n    \"x\": 1\n  }\n}\n".to_string())
    );
    match official_auth_text("a", Some("[]".to_string())) {
        Err(CodexxError::Config(m)) => assert_eq!(m, "auth.json 必须是 JSON object"),
        other => panic!("unexpected: {:?}", other),
    }
    match official_auth_text("/c/auth.json", Some("{".to_string())) {
        Err(CodexxError::Json { path, .. }) => assert_eq!(path, "/c/auth.json"),
        other => panic!("unexpected: {:?}", other),
    }
}
