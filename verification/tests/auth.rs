use codexx::auth::{auth_has_material, normalize_api_key, redacted_auth_preview};
use codexx::error::CodexxError;
use codexx::json::JsonValue;

fn member<'a>(v: &'a JsonValue, key: &str) -> &'a JsonValue {
    match v {
        JsonValue::Object(ms) => &ms.iter().find(|(k, _)| k == key).unwrap().1,
        _ => panic!("not an object"),
    }
}

fn text(v: &JsonValue) -> &str {
    match v {
        JsonValue::Str(s) => s,
        _ => panic!("not a string"),
    }
}

#[test]
fn material_ignores_auth_mode_and_blanks() {
    assert!(!auth_has_material("a", None).unwrap());
    assert!(!auth_has_material("a", Some("{\"auth_mode\":\"chatgpt\",\"OPENAI_API_KEY\":\"  \",\"x\":null,\"y\":[],\"z\":{}}".to_string())).unwrap());
    assert!(auth_has_material("a", Some("{\"OPENAI_API_KEY\":\"sk\"}".to_string())).unwrap());
    assert!(auth_has_material("a", Some("{\"last_refresh\":0}".to_string())).unwrap());
    assert!(auth_has_material("a", Some("{\"tokens\":{\"id\":1}}".to_string())).unwrap());
    assert!(!auth_has_material("a", Some("[1,2]".to_string())).unwrap());
    match auth_has_material("/c/auth.json", Some("{".to_string())) {
        Err(CodexxError::Json { path, .. }) => assert_eq!(path, "/c/auth.json"),
        other => panic!("unexpected: {:?}", other),
    }
}

#[test]
fn preview_masks_secret_strings() {
    let v = redacted_auth_preview(
        "a",
        Some("{\"OPENAI_API_KEY\":\"sk-1\",\"Refresh_Token\":\"t\",\"auth_mode\":\"apikey\",\"password\":\" \",\"secret_n\":5}".to_string()),
    )
    .unwrap()
    .unwrap();
    assert_eq!(text(member(&v, "OPENAI_API_KEY")), "••••••••");
    assert_eq!(text(member(&v, "Refresh_Token")), "••••••••");
    assert_eq!(text(member(&v, "auth_mode")), "apikey");
    assert_eq!(text(member(&v, "password")), " ");
    assert!(matches!(member(&v, "secret_n"), JsonValue::Number(_)));
    assert!(redacted_auth_preview("a", None).unwrap().is_none());
    assert!(matches!(redacted_auth_preview("a", Some("x".to_string())), Err(CodexxError::Json { .. })));
}

#[test]
fn preview_of_a_masked_file_is_unchanged() {
    let once = redacted_auth_preview("a", Some("{\"api_key\":\"k\",\"n\":\"v\"}".to_string())).unwrap().unwrap();
    assert_eq!(text(member(&once, "api_key")), "••••••••");
    assert_eq!(text(member(&once, "n")), "v");
    let twice = redacted_auth_preview("a", Some("{\"api_key\":\"••••••••\",\"n\":\"v\"}".to_string())).unwrap().unwrap();
    assert_eq!(text(member(&twice, "api_key")), "••••••••");
    assert_eq!(text(member(&twice, "n")), "v");
}

#[test]
fn api_keys_are_trimmed() {
    assert_eq!(normalize_api_key(Some("  sk ".to_string())), Some("sk".to_string()));
    assert_eq!(normalize_api_key(Some("   ".to_string())), None);
    assert_eq!(normalize_api_key(None), None);
}
