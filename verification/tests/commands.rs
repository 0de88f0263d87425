use codexx::commands::{
    about_info, build_state, command_version, detect_codex_version, disabled_message,
    enabled_message, macos_codex_app_version, missing_backup_error, prompt_reference,
    provider_toml_text, restored_message, switch_fields, switched_message, sync_lock_error,
    url_to_open, action_result, CodexFiles, ProviderInput,
};
use codexx::error::CodexxError;
use codexx::json::JsonValue;

fn s(x: &str) -> String {
    x.to_string()
}

fn input(name: &str, url: &str, model: &str) -> ProviderInput {
    ProviderInput {
        config_dir: None,
        provider_name: s(name),
        base_url: s(url),
        model: s(model),
        api_key: None,
        wire_api: None,
        requires_openai_auth: None,
    }
}

fn files(config: &str, auth: Option<&str>) -> CodexFiles {
    CodexFiles {
        codex_dir: s("/c"),
        config_path: s("/c/config.toml"),
        auth_path: s("/c/auth.json"),
        config_exists: !config.is_empty(),
        config_text: s(config),
        auth_text: auth.map(s),
        last_backup: None,
    }
}

#[test]
fn switch_fields_are_trimmed_and_required() {
    let (n, u, m) = switch_fields(&input(" Relay ", " https://r.test/// ", " gpt ")).unwrap();
    assert_eq!((n.as_str(), u.as_str(), m.as_str()), ("Relay", "https://r.test", "gpt"));
    for (i, msg) in [
        (input(" ", "u", "m"), "供应商名称不能为空"),
        (input("n", " / ", "m"), "base_url 不能为空"),
        (input("n", "u", ""), "model 不能为空"),
    ] {
        match switch_fields(&i) {
            Err(CodexxError::Config(m)) => assert_eq!(m, msg),
            other => panic!("unexpected: {:?}", other),
        }
    }
}

#[test]
fn state_reads_config_and_auth() {
    let cfg = "model = \"gpt-5.5\"\nmodel_provider = \"custom\"\nmodel_instructions_file = \"./gpt5.5-unrestricted.md\"\n[model_providers.custom]\nname = \"R\"\n";
    let st = build_state(files(cfg, Some("{\"OPENAI_API_KEY\":\"sk\"}"))).unwrap();
    assert_eq!(st.model.as_deref(), Some("gpt-5.5"));
    assert_eq!(st.model_provider.as_deref(), Some("custom"));
    assert_eq!(st.instruction_file.as_deref(), Some("./gpt5.5-unrestricted.md"));
    assert!(st.instruction_enabled);
    assert_eq!(st.providers.len(), 1);
    assert!(st.providers[0].is_current);
    assert!(st.auth_exists);
    assert!(st.official_auth_available);
    match st.auth_preview {
        Some(JsonValue::Object(ms)) => assert!(matches!(&ms[0].1, JsonValue::Str(x) if x == "••••••••")),
        other => panic!("unexpected: {:?}", other),
    }
    assert_eq!(st.config_text, cfg);

    let empty = build_state(files("", None)).unwrap();
    assert_eq!(empty.model, None);
    assert!(!empty.auth_exists);
    assert!(!empty.official_auth_available);
    assert!(empty.auth_preview.is_none());
    assert_eq!(empty.auth_text, "");
    assert!(empty.providers.is_empty());
}

#[test]
fn state_reports_broken_files() {
    match build_state(files("=", None)) {
        Err(CodexxError::Toml { path, .. }) => assert_eq!(path, "/c/config.toml"),
        other => panic!("unexpected: {:?}", other.map(|s| s.model)),
    }
    match build_state(files("", Some("{"))) {
        Err(CodexxError::Json { path, .. }) => assert_eq!(path, "/c/auth.json"),
        other => panic!("unexpected: {:?}", other.map(|s| s.model)),
    }
}

#[test]
fn answers_and_messages() {
    let st = build_state(files("", None)).unwrap();
    let r = action_result(s("done"), Some(s("b1")), st);
    assert!(r.ok);
    assert_eq!(r.message, "done");
    assert_eq!(r.backup_id.as_deref(), Some("b1"));
    assert_eq!(switched_message("Relay", "gpt"), "已切换到 Relay / gpt");
    assert_eq!(enabled_message("x.md"), "已启用 x.md");
    assert_eq!(disabled_message(true), "已禁用指令提示词");
    assert_eq!(disabled_message(false), "当前未设置 model_instructions_file");
    assert_eq!(restored_message("id1"), "已恢复备份 id1");
    assert_eq!(prompt_reference("p.md"), "./p.md");
    assert_eq!(provider_toml_text("model = \"m\"  \n\n"), "model = \"m\"\n");
    match missing_backup_error("id9") {
        CodexxError::Config(m) => assert_eq!(m, "备份不存在: id9"),
        other => panic!("unexpected: {:?}", other),
    }
    match sync_lock_error("/c/tmp/provider-sync.lock") {
        CodexxError::Config(m) => assert_eq!(m, "会话同步锁已存在: /c/tmp/provider-sync.lock"),
        other => panic!("unexpected: {:?}", other),
    }
}

#[test]
fn about_and_versions() {
    let a = about_info(s("0.1.0"), Some(s("codex 1.2")), s("/c"));
    assert_eq!(a.project_url, "https://github.com/yynxxxxx/Codex-X");
    assert_eq!(a.github_repo, "yynxxxxx/Codex-X");
    assert_eq!(a.codex_dir, "/c");
    assert_eq!(command_version(true, "  codex-cli 0.1\n"), Some(s("codex-cli 0.1")));
    assert_eq!(command_version(false, "x"), None);
    assert_eq!(command_version(true, " \n"), None);
    assert_eq!(detect_codex_version(None, Some(s("b")), Some(s("c"))), Some(s("b")));
    assert_eq!(detect_codex_version(Some(s("a")), Some(s("b")), None), Some(s("a")));
    assert_eq!(detect_codex_version(None, None, Some(s("c"))), Some(s("c")));
    assert_eq!(macos_codex_app_version(), None);
}

#[test]
fn urls_are_trimmed_and_required() {
    assert_eq!(url_to_open(" https://x.test "), Ok(s("https://x.test")));
    assert_eq!(url_to_open("  "), Err(s("URL 为空")));
}
