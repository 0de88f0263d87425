use codexx::ccswitch::{
    ccswitch_open_error, ccswitch_provider_at, ccswitch_provider_from_config, ccswitch_provider_from_settings,
    extract_ccswitch_codex_provider, import_skip_warning, join_strings, missing_ccswitch_db_error,
    official_auth_candidate, official_auth_from_settings, record_import_row, ImportResult,
};
use codexx::json::JsonValue;
use codexx::error::CodexxError;

fn settings(config: &str, auth: &str) -> String {
    let mut m = serde_json::Map::new();
    m.insert("config".to_string(), serde_json::Value::String(config.to_string()));
    m.insert("auth".to_string(), serde_json::from_str::<serde_json::Value>(auth).unwrap());
    serde_json::Value::Object(m).to_string()
}

#[test]
fn provider_from_settings() {
    let cfg = "model = \"gpt-x\"\nmodel_provider = \"relay\"\n[model_providers.relay]\nname = \" Relay \"\nbase_url = \" https://r.test/v1/ \"\nwire_api = \"chat\"\nrequires_openai_auth = false\n";
    let s = settings(cfg, "{\"OPENAI_API_KEY\":\" sk-1 \"}");
    let p = ccswitch_provider_at("Relay One", "Fallback", &s, 7).unwrap();
    assert_eq!(p.id, "relay-one");
    assert_eq!(p.provider_name, "Relay");
    assert_eq!(p.base_url, "https://r.test/v1");
    assert_eq!(p.model, "gpt-x");
    assert_eq!(p.api_key.as_deref(), Some("sk-1"));
    assert_eq!(p.wire_api, "chat");
    assert!(!p.requires_openai_auth);
}

#[test]
fn provider_falls_back_on_defaults() {
    let s = settings("base_url = \"https://top.test\"\n", "{}");
    let p = ccswitch_provider_at("!!", "Name", &s, 99).unwrap();
    assert_eq!(p.id, "provider-99");
    assert_eq!(p.provider_name, "Name");
    assert_eq!(p.base_url, "https://top.test");
    assert_eq!(p.model, "gpt-5.5");
    assert_eq!(p.api_key, None);
    assert_eq!(p.wire_api, "responses");
    assert!(p.requires_openai_auth);
}

#[test]
fn unusable_settings_are_skipped() {
    assert!(ccswitch_provider_at("a", "b", "not json", 0).is_none());
    assert!(ccswitch_provider_at("a", "b", &settings("   ", "{}"), 0).is_none());
    assert!(ccswitch_provider_at("a", "b", &settings("model = \"m\"\n", "{}"), 0).is_none());
    assert!(ccswitch_provider_at("a", "b", &settings("[[", "{}"), 0).is_none());
    assert!(extract_ccswitch_codex_provider("a", "b", "{}").is_none());
}

#[test]
fn official_login_candidate() {
    let s = settings("model = \" gpt-5.5 \"\n", "{\"tokens\":{\"a\":\"b\"}}");
    let c = official_auth_candidate("codex-official", "Official", &s).unwrap();
    assert_eq!(c.auth_json, "{\n  \"tokens\": {\n    \"a\": \"b\"\n  }\n}");
    assert_eq!(c.model.as_deref(), Some("gpt-5.5"));
    assert_eq!(c.source, "cc-switch:Official:codex-official");
    match official_auth_candidate("i", "n", &settings("", "[1]")) {
        Err(CodexxError::Database(m)) => assert_eq!(m, "cc-switch official provider 缺少 auth object"),
        other => panic!("unexpected: {:?}", other),
    }
    match official_auth_candidate("i", "n", "{") {
        Err(CodexxError::Database(m)) => assert!(m.starts_with("cc-switch official settings JSON 解析失败: ")),
        other => panic!("unexpected: {:?}", other),
    }
}

#[test]
fn import_tally() {
    let mut r = ImportResult { imported: 0, skipped: 0, warnings: vec![], providers: vec![] };
    record_import_row(&mut r, "A", "a", true);
    record_import_row(&mut r, "B", "b", false);
    assert_eq!(r.imported, 1);
    assert_eq!(r.skipped, 1);
    assert_eq!(r.warnings, vec![import_skip_warning("B", "b")]);
    assert_eq!(r.warnings[0], "跳过 B (b)：未找到可用 config/base_url，可能是官方登录或空模板");
}

#[test]
fn missing_database_lists_the_candidates() {
    assert_eq!(join_strings(&vec!["a".to_string(), "b".to_string()], ", "), "a, b");
    assert_eq!(join_strings(&vec![], ", "), "");
    match missing_ccswitch_db_error("/x.db", &vec!["/a".to_string(), "/b".to_string()]) {
        CodexxError::Config(m) => assert_eq!(m, "cc-switch 数据库不存在: /x.db\n已检查候选路径:\n- /a\n- /b"),
        other => panic!("unexpected: {:?}", other),
    }
    match ccswitch_open_error("/x.db", "locked") {
        CodexxError::Database(m) => assert_eq!(m, "打开 cc-switch 数据库失败 /x.db: locked"),
        other => panic!("unexpected: {:?}", other),
    }
}

fn obj(members: Vec<(&str, JsonValue)>) -> JsonValue {
    JsonValue::Object(members.into_iter().map(|(k, v)| (k.to_string(), v)).collect())
}

#[test]
fn provider_from_parsed_settings() {
    let settings = obj(vec![
        ("auth", obj(vec![("OPENAI_API_KEY", JsonValue::Str("  ".to_string()))])),
        ("config", JsonValue::Str("model_provider = \"x\"\n[model_providers.x]\nbase_url = \"https://x.test//\"\n".to_string())),
    ]);
    let p = ccswitch_provider_from_settings("X", "Named", &settings, 3).unwrap();
    assert_eq!(p.id, "x");
    assert_eq!(p.provider_name, "Named");
    assert_eq!(p.base_url, "https://x.test");
    assert_eq!(p.api_key, None);
    let blank = obj(vec![("config", JsonValue::Str(" ".to_string()))]);
    assert!(ccswitch_provider_from_settings("X", "Named", &blank, 3).is_none());
    let not_toml = obj(vec![("config", JsonValue::Str("= =".to_string()))]);
    assert!(ccswitch_provider_from_settings("X", "Named", &not_toml, 3).is_none());
}

#[test]
fn provider_from_parsed_config() {
    let doc = "model = \"m\"\nbase_url = \" https://top.test/ \"\n".parse::<toml_edit::DocumentMut>().unwrap();
    let p = ccswitch_provider_from_config("Top", "T", Some("k".to_string()), &doc, 5).unwrap();
    assert_eq!(p.id, "top");
    assert_eq!(p.base_url, "https://top.test");
    assert_eq!(p.model, "m");
    assert_eq!(p.api_key.as_deref(), Some("k"));
    assert_eq!(p.wire_api, "responses");
    let empty = "model = \"m\"\n".parse::<toml_edit::DocumentMut>().unwrap();
    assert!(ccswitch_provider_from_config("Top", "T", None, &empty, 5).is_none());
}

#[test]
fn official_login_from_parsed_settings() {
    let settings = obj(vec![
        ("auth", obj(vec![("OPENAI_API_KEY", JsonValue::Str("sk".to_string()))])),
        ("config", JsonValue::Str("model = \" o3 \"\n".to_string())),
    ]);
    let c = official_auth_from_settings("id1", "Official", settings).unwrap();
    assert_eq!(c.source, "cc-switch:Official:id1");
    assert_eq!(c.model.as_deref(), Some("o3"));
    assert_eq!(c.auth_json, "{\n  \"OPENAI_API_KEY\": \"sk\"\n}");
    let no_auth = obj(vec![("auth", JsonValue::Str("x".to_string()))]);
    match official_auth_from_settings("id1", "Official", no_auth) {
        Err(CodexxError::Database(m)) => assert_eq!(m, "cc-switch official provider 缺少 auth object"),
        other => panic!("unexpected {:?}", other.map(|c| c.source)),
    }
}
