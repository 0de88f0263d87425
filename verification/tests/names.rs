use codexx::names::{normalize_prompt_filename, sanitize_id_at, instruction_template, is_managed_instruction_value, sql_select_column, InstructionKind};

#[test]
fn prompt_filename_slugs_and_adds_md() {
    assert_eq!(normalize_prompt_filename("  My Prompt.md ", "x"), "my-prompt.md");
    assert_eq!(normalize_prompt_filename("a.md.md", "x"), "a.md");
    assert_eq!(normalize_prompt_filename("", "Fallback Id"), "fallback-id.md");
    assert_eq!(normalize_prompt_filename("!!!", "x"), "custom-prompt.md");
    assert_eq!(normalize_prompt_filename("a__b--c", "x"), "a__b--c.md");
}

#[test]
fn sanitize_id_slugs_or_uses_clock() {
    assert_eq!(sanitize_id_at("  Foo Bar_Baz ", 5), "foo-bar-baz");
    assert_eq!(sanitize_id_at("---", 1234), "provider-1234");
    assert_eq!(sanitize_id_at("", -7), "provider--7");
}

#[test]
fn instruction_templates() {
    let (f, r, k) = instruction_template(" gpt5.4-unrestricted ").ok().unwrap();
    assert_eq!(f, "gpt5.4-unrestricted.md");
    assert_eq!(r, "./gpt5.4-unrestricted.md");
    assert_eq!(k, InstructionKind::Gpt54);
    let (f, _, k) = instruction_template("").ok().unwrap();
    assert_eq!(f, "gpt5.5-unrestricted.md");
    assert_eq!(k, InstructionKind::Gpt55);
    assert!(instruction_template("other").is_err());
}

#[test]
fn managed_instruction_values() {
    assert!(is_managed_instruction_value("./gpt5.5-unrestricted.md"));
    assert!(is_managed_instruction_value("/home/u/.codex/gpt5.4-unrestricted.md"));
    assert!(is_managed_instruction_value("C:\\x\\gpt5.5-unrestricted.md"));
    assert!(!is_managed_instruction_value("other.md"));
}

#[test]
fn select_column_quotes_or_falls_back() {
    let cols = vec!["title".to_string(), "we\"ird".to_string()];
    assert_eq!(sql_select_column(&cols, "title", "NULL"), "\"title\"");
    assert_eq!(sql_select_column(&cols, "we\"ird", "NULL"), "\"we\"\"ird\"");
    assert_eq!(sql_select_column(&cols, "preview", "NULL"), "NULL");
}

#[test]
fn normalised_prompt_filename_is_stable() {
    for (input, fallback) in [(" Foo Bar.md", "x"), ("", "Some Id"), ("???", "x"), ("a-md.md", "x"), ("Ü--b_", "y")] {
        let once = normalize_prompt_filename(input, fallback);
        assert_eq!(normalize_prompt_filename(&once, "other"), once);
    }
    assert_eq!(normalize_prompt_filename("a-md.md", "x"), "a-md.md");
}
