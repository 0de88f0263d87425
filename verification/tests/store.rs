use codexx::error::CodexxError;
use codexx::store::{
    find_saved_provider, get_saved_prompt_inner, normalize_base_url, normalize_prompt,
    normalize_saved_provider, prepare_prompt, provider_from_row, SavedPrompt, SavedProvider,
};

fn provider(id: &str, name: &str, url: &str, model: &str) -> SavedProvider {
    SavedProvider {
        id: id.to_string(),
        provider_name: name.to_string(),
        base_url: url.to_string(),
        model: model.to_string(),
        api_key: Some("  ".to_string()),
        wire_api: " ".to_string(),
        requires_openai_auth: false,
    }
}

fn prompt(id: &str, title: &str, filename: &str, content: &str) -> SavedPrompt {
    SavedPrompt { id: id.to_string(), title: title.to_string(), filename: filename.to_string(), content: content.to_string() }
}

#[test]
fn base_urls_lose_trailing_slashes() {
    assert_eq!(normalize_base_url("  https://x.test/v1/// "), "https://x.test/v1");
    assert_eq!(normalize_base_url("///"), "");
}

#[test]
fn saved_provider_is_normalised() {
    let q = normalize_saved_provider(provider(" p1 ", " Relay ", " https://r.test/ ", " gpt ")).unwrap();
    assert_eq!(q.id, "p1");
    assert_eq!(q.provider_name, "Relay");
    assert_eq!(q.base_url, "https://r.test");
    assert_eq!(q.model, "gpt");
    assert_eq!(q.api_key, None);
    assert_eq!(q.wire_api, "responses");
    assert!(!q.requires_openai_auth);
}

#[test]
fn incomplete_provider_is_refused_in_order() {
    let cases = [
        (provider(" ", "", "", ""), "provider id 不能为空"),
        (provider("a", " ", "", ""), "供应商名称不能为空"),
        (provider("a", "b", "/", ""), "base_url 不能为空"),
        (provider("a", "b", "u", " "), "model 不能为空"),
    ];
    for (p, msg) in cases {
        match normalize_saved_provider(p) {
            Err(CodexxError::Config(m)) => assert_eq!(m, msg),
            other => panic!("unexpected: {:?}", other),
        }
    }
}

#[test]
fn rows_read_back_and_are_found_by_id() {
    let a = provider_from_row("a".into(), "A".into(), "u".into(), "m".into(), None, "responses".into(), 1);
    assert!(a.requires_openai_auth);
    let b = provider_from_row("b".into(), "B".into(), "u".into(), "m".into(), Some("k".into()), "chat".into(), 0);
    assert!(!b.requires_openai_auth);
    let found = find_saved_provider(vec![a.clone(), b.clone()], "b").unwrap();
    assert_eq!(found.provider_name, "B");
    match find_saved_provider(vec![a], "zz") {
        Err(CodexxError::Database(m)) => assert_eq!(m, "provider saved but not found"),
        other => panic!("unexpected: {:?}", other),
    }
}

#[test]
fn prompt_save_derives_id_and_filename() {
    let p = prepare_prompt(prompt("", "  My Prompt ", "", " body "), 42).unwrap();
    assert_eq!(p.id, "my-prompt");
    assert_eq!(p.title, "My Prompt");
    assert_eq!(p.filename, "my-prompt.md");
    assert_eq!(p.content, "body");
    let p = prepare_prompt(prompt(" X_1 ", "t", "Notes.MD", "c"), 42).unwrap();
    assert_eq!(p.id, "x-1");
    assert_eq!(p.filename, "notes-md.md");
    let p = prepare_prompt(prompt("", "???", "", "c"), 42).unwrap();
    assert_eq!(p.id, "provider-42");
    assert_eq!(p.filename, "provider-42.md");
    let p = normalize_prompt(prompt("keep", "t", "f.md", "c")).unwrap();
    assert_eq!(p.id, "keep");
    assert_eq!(p.filename, "f.md");
}

#[test]
fn prompt_save_needs_title_and_content() {
    match prepare_prompt(prompt("a", " ", "", "c"), 0) {
        Err(CodexxError::Config(m)) => assert_eq!(m, "提示词名称不能为空"),
        other => panic!("unexpected: {:?}", other),
    }
    match prepare_prompt(prompt("a", "t", "", "\n"), 0) {
        Err(CodexxError::Config(m)) => assert_eq!(m, "提示词内容不能为空"),
        other => panic!("unexpected: {:?}", other),
    }
}

#[test]
fn saved_prompt_is_found_or_refused() {
    let list = vec![prompt("a", "A", "a.md", "1"), prompt("b", "B", "b.md", "2")];
    assert_eq!(get_saved_prompt_inner(list.clone(), "b").unwrap().title, "B");
    match get_saved_prompt_inner(list, "c") {
        Err(CodexxError::Config(m)) => assert_eq!(m, "提示词不存在: c"),
        other => panic!("unexpected: {:?}", other),
    }
}
