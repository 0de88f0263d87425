use codexx::sessions::{
    is_rollout_file, new_rollout_scan, normalize_workspace_path, record_rollout_file,
    scan_parsed_line, scan_rollout_text, split_line_ending, skipped_log_warning, unreadable_dir_warning,
    ScanState,
};
use codexx::json::JsonValue;

#[test]
fn line_endings_split_off() {
    assert_eq!(split_line_ending("abc\r\n"), ("abc".to_string(), "\r\n"));
    assert_eq!(split_line_ending("abc\n"), ("abc".to_string(), "\n"));
    assert_eq!(split_line_ending("abc"), ("abc".to_string(), ""));
    assert_eq!(split_line_ending("\r"), ("\r".to_string(), ""));
    let (line, ending) = split_line_ending("x\r\n");
    assert_eq!(format!("{line}{ending}"), "x\r\n");
}

#[test]
fn workspace_paths_lose_verbatim_prefixes() {
    assert_eq!(normalize_workspace_path("  "), None);
    assert_eq!(normalize_workspace_path(" /home/u/p "), Some("/home/u/p".to_string()));
    assert_eq!(normalize_workspace_path("\\\\?\\C:\\work\\p"), Some("C:/work/p".to_string()));
    assert_eq!(normalize_workspace_path("\\\\?\\UNC\\srv/share/p"), Some("\\\\srv\\share\\p".to_string()));
}

#[test]
fn rollout_files_are_recognised_by_name() {
    assert!(is_rollout_file("/c/sessions/2024/rollout-1.jsonl"));
    assert!(is_rollout_file("rollout-x.jsonl"));
    assert!(!is_rollout_file("/c/sessions/rollout-1.json"));
    assert!(!is_rollout_file("/c/sessions/other.jsonl"));
    assert!(!is_rollout_file("/c/rollout-1.jsonl/.."));
}

const LOG: &str = "{\"type\":\"session_meta\",\"payload\":{\"id\":\"t1\",\"cwd\":\"\\\\\\\\?\\\\C:\\\\w\",\"model_provider\":\"openai\"}}\r\n{\"type\":\"event\",\"payload\":{\"type\":\"user_message\"}}\n\nnot json\n{\"type\":\"session_meta\",\"payload\":{\"id\":\"t2\",\"model_provider\":\"custom\"}}";

#[test]
fn scan_counts_and_rewrites_meta_records() {
    let f = scan_rollout_text(LOG, "custom", true);
    assert_eq!(f.session_meta_count, 2);
    assert_eq!(f.mismatched_session_meta, 1);
    assert!(f.file_has_meta);
    assert!(f.file_changed);
    assert!(f.has_user_event);
    assert_eq!(f.first_thread_id.as_deref(), Some("t1"));
    assert_eq!(f.first_cwd.as_deref(), Some("C:/w"));
    let lines: Vec<&str> = f.text.split_inclusive('\n').collect();
    assert_eq!(lines.len(), 5);
    assert!(lines[0].ends_with("\r\n"));
    let rec: serde_json::Value = serde_json::from_str(lines[0].trim_end()).unwrap();
    assert_eq!(rec["payload"]["model_provider"], "custom");
    assert_eq!(rec["payload"]["id"], "t1");
    assert_eq!(&f.text[f.text.find("{\"type\":\"event\"").unwrap()..], &LOG[LOG.find("{\"type\":\"event\"").unwrap()..]);
}

#[test]
fn dry_run_keeps_the_text() {
    let f = scan_rollout_text(LOG, "custom", false);
    assert_eq!(f.text, LOG);
    assert_eq!(f.mismatched_session_meta, 1);
    let g = scan_rollout_text(LOG, "nobody", false);
    assert_eq!(g.mismatched_session_meta, 2);
    let h = scan_rollout_text("{\"type\":\"x\"}\n", "custom", true);
    assert!(!h.file_has_meta);
    assert!(!h.file_changed);
    assert!(!h.has_user_event);
}

#[test]
fn tally_records_ids_and_workspaces() {
    let mut scan = new_rollout_scan(3);
    let f = scan_rollout_text(LOG, "custom", true);
    record_rollout_file(&mut scan, "/c/sessions/rollout-a.jsonl".to_string(), f.clone(), true);
    record_rollout_file(&mut scan, "/c/sessions/rollout-b.jsonl".to_string(), f, true);
    assert_eq!(scan.rollout_files, 3);
    assert_eq!(scan.session_meta_count, 4);
    assert_eq!(scan.mismatched_session_meta, 2);
    assert_eq!(scan.mismatched_rollouts, 2);
    assert_eq!(scan.changed_files.len(), 2);
    assert_eq!(scan.changed_files[1].0, "/c/sessions/rollout-b.jsonl");
    assert_eq!(scan.thread_ids_with_user_events, vec!["t1".to_string()]);
    assert_eq!(scan.cwd_by_thread_id, vec![("t1".to_string(), "C:/w".to_string())]);
    let mut dry = new_rollout_scan(1);
    let f = scan_rollout_text(LOG, "custom", false);
    record_rollout_file(&mut dry, "p".to_string(), f, false);
    assert!(dry.changed_files.is_empty());
    assert_eq!(dry.mismatched_rollouts, 1);
}

#[test]
fn warnings_name_the_path() {
    assert_eq!(skipped_log_warning("/x"), "跳过被占用/无权限会话文件: /x");
    assert_eq!(unreadable_dir_warning("/d"), "无法读取目录: /d");
}

fn fresh_state() -> ScanState {
    ScanState { meta_count: 0, mismatched: 0, has_meta: false, changed: false, first_id: None, first_cwd: None, out: Vec::new() }
}

fn obj(members: Vec<(&str, JsonValue)>) -> JsonValue {
    JsonValue::Object(members.into_iter().map(|(k, v)| (k.to_string(), v)).collect())
}

#[test]
fn parsed_lines_are_scanned() {
    let line: Vec<char> = "{...}".chars().collect();
    let ending: Vec<char> = "\n".chars().collect();
    let rec = obj(vec![
        ("type", JsonValue::Str("session_meta".to_string())),
        ("payload", obj(vec![
            ("id", JsonValue::Str("t1".to_string())),
            ("cwd", JsonValue::Str(" /w ".to_string())),
            ("model_provider", JsonValue::Str("old".to_string())),
        ])),
    ]);
    let mut st = fresh_state();
    scan_parsed_line(&mut st, &line, &ending, Some(rec), "new", true);
    assert_eq!(st.meta_count, 1);
    assert_eq!(st.mismatched, 1);
    assert!(st.changed && st.has_meta);
    assert_eq!(st.first_id.as_deref(), Some("t1"));
    assert_eq!(st.first_cwd.as_deref(), Some("/w"));
    let out: String = st.out.iter().collect();
    assert!(out.contains("\"model_provider\":\"new\""));
    assert!(!out.contains("old"));
    assert!(out.ends_with("}\n"));

    let other = obj(vec![("type", JsonValue::Str("event".to_string()))]);
    scan_parsed_line(&mut st, &line, &ending, Some(other), "new", true);
    scan_parsed_line(&mut st, &line, &ending, None, "new", true);
    assert_eq!(st.meta_count, 1);
    let out: String = st.out.iter().collect();
    assert!(out.ends_with("}\n{...}\n{...}\n"));
}

#[test]
fn rewritten_log_rescans_clean() {
    let first = scan_rollout_text(LOG, "custom", true);
    assert_eq!(first.mismatched_session_meta, 1);
    for rewrite in [false, true] {
        let second = scan_rollout_text(&first.text, "custom", rewrite);
        assert_eq!(second.mismatched_session_meta, 0);
        assert!(!second.file_changed);
        assert_eq!(second.session_meta_count, first.session_meta_count);
        assert_eq!(second.text, first.text);
    }
    let odd = "{\"type\":\"session_meta\",\"payload\":{\"model_provider\":\"a\",\"note\":\"x\\ny\",\"n\":1.5}}\r\n{\"type\":\"session_meta\",\"payload\":{}}";
    let first = scan_rollout_text(odd, "b", true);
    assert_eq!(first.mismatched_session_meta, 2);
    let second = scan_rollout_text(&first.text, "b", false);
    assert_eq!(second.mismatched_session_meta, 0);
    assert_eq!(second.session_meta_count, 2);
}
