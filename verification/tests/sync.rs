use codexx::sessions::new_rollout_scan;
use codexx::sync::{
    add_sqlite_counts, finish_sync, is_sqlite_extension, merge_session_previews, new_sqlite_scan,
    preview_open_warning, provider_sync_updates, session_limit, session_preview_from_row,
    session_preview_query, session_sync_status_inner, sqlite_candidate_paths, sqlite_scan_step,
    sync_open_error, SessionPreview, SessionRow, SqliteProbe,
};
use codexx::error::CodexxError;

fn s(x: &str) -> String {
    x.to_string()
}

fn row(id: &str) -> SessionRow {
    SessionRow {
        id: s(id),
        title: None,
        first_message: None,
        preview: None,
        model_provider: None,
        model: None,
        cwd: None,
        rollout_path: None,
        updated_at_ms: None,
        updated_at: None,
        archived: 0,
        has_user_event: 0,
    }
}

fn preview(id: &str, at: Option<i64>) -> SessionPreview {
    session_preview_from_row(SessionRow { updated_at_ms: at, ..row(id) }, "custom")
}

#[test]
fn sqlite_probes_count_or_warn() {
    let mut scan = new_sqlite_scan();
    assert!(!sqlite_scan_step(&mut scan, "/a.db", &SqliteProbe::OpenFailed(s("busy"))));
    assert!(!sqlite_scan_step(&mut scan, "/b.db", &SqliteProbe::NoThreadsTable));
    assert!(!sqlite_scan_step(&mut scan, "/c.db", &SqliteProbe::Columns(vec![s("id")])));
    assert!(sqlite_scan_step(&mut scan, "/d.db", &SqliteProbe::Columns(vec![s("id"), s("model_provider")])));
    assert_eq!(scan.warnings, vec![s("无法读取 SQLite: /a.db (busy)"), s("SQLite threads 缺少 model_provider 字段: /c.db")]);
    add_sqlite_counts(&mut scan, 10, 3);
    add_sqlite_counts(&mut scan, -1, -5);
    assert_eq!(scan.sqlite_dbs, 2);
    assert_eq!(scan.sqlite_threads, 10);
    assert_eq!(scan.mismatched_threads, 3);
}

#[test]
fn rows_become_previews() {
    let p = session_preview_from_row(
        SessionRow {
            title: Some(s("  ")),
            first_message: Some(s(" hello ")),
            model_provider: Some(s(" custom ")),
            model: Some(s(" ")),
            cwd: Some(s("/w")),
            updated_at: Some(5),
            archived: 2,
            has_user_event: 1,
            ..row("abcdef123456")
        },
        "custom",
    );
    assert_eq!(p.title, "hello");
    assert_eq!(p.model_provider.as_deref(), Some("custom"));
    assert_eq!(p.model, None);
    assert_eq!(p.cwd.as_deref(), Some("/w"));
    assert_eq!(p.updated_at_ms, Some(5000));
    assert!(p.archived);
    assert!(p.has_user_event);
    assert!(!p.needs_sync);
    let q = session_preview_from_row(row("abcdef123456"), "custom");
    assert_eq!(q.title, "会话 abcdef12");
    assert!(q.needs_sync);
    assert_eq!(q.updated_at_ms, None);
    assert_eq!(session_preview_from_row(row("ab"), "x").title, "会话 ab");
}

#[test]
fn session_list_is_unique_newest_first_and_limited() {
    let rows = vec![
        preview("a", Some(1)),
        preview("b", None),
        preview("c", Some(3)),
        preview("a", Some(9)),
        preview("d", Some(3)),
    ];
    let out = merge_session_previews(rows.clone(), 10);
    let ids: Vec<&str> = out.iter().map(|p| p.id.as_str()).collect();
    assert_eq!(ids, vec!["c", "d", "a", "b"]);
    let out = merge_session_previews(rows, 2);
    let ids: Vec<&str> = out.iter().map(|p| p.id.as_str()).collect();
    assert_eq!(ids, vec!["c", "d"]);
}

#[test]
fn session_limit_is_clamped() {
    assert_eq!(session_limit(0), 50);
    assert_eq!(session_limit(120), 120);
    assert_eq!(session_limit(5000), 1000);
}

#[test]
fn listing_query_uses_the_columns_present() {
    assert_eq!(session_preview_query(&vec![s("title")], 10), None);
    let q = session_preview_query(&vec![s("id"), s("title"), s("updated_at"), s("archived")], 0).unwrap();
    assert_eq!(
        q,
        "SELECT \"id\", \"title\", NULL, NULL, NULL, NULL, NULL, NULL, NULL, \"updated_at\", \"archived\", 0 FROM threads ORDER BY \"updated_at\" DESC LIMIT 1"
    );
    let q = session_preview_query(&vec![s("id"), s("recency_at_ms"), s("updated_at_ms")], 250).unwrap();
    assert!(q.ends_with("ORDER BY \"recency_at_ms\" DESC LIMIT 250"));
}

#[test]
fn status_adds_up_the_scans() {
    let rollouts = new_rollout_scan(4);
    let mut sqlite = new_sqlite_scan();
    sqlite_scan_step(&mut sqlite, "/x.db", &SqliteProbe::OpenFailed(s("e")));
    add_sqlite_counts(&mut sqlite, 7, 2);
    let st = session_sync_status_inner(s("/c"), s("custom"), rollouts, sqlite, vec![preview("a", Some(1))], vec![s("w3")]);
    assert_eq!(st.codex_dir, "/c");
    assert_eq!(st.rollout_files, 4);
    assert_eq!(st.sqlite_threads, 7);
    assert_eq!(st.mismatched_threads, 2);
    assert!(st.needs_sync);
    assert_eq!(st.backup_dir, None);
    assert_eq!(st.warnings, vec![s("无法读取 SQLite: /x.db (e)"), s("w3")]);

    let done = finish_sync(st.clone(), false, 0, 0, 0, s("/c/backups_state/provider-sync/1"));
    assert_eq!(done.backup_dir, "/c/backups_state/provider-sync/1");
    assert_eq!(done.status.backup_dir.as_deref(), Some("/c/backups_state/provider-sync/1"));
    assert_eq!(done.status.warnings.last().unwrap(), "没有发现需要修复的会话；已保留一次安全备份。");
    let done = finish_sync(st, true, 0, 3, 4, s("/b"));
    assert_eq!(done.status.warnings.len(), 2);
    assert_eq!(done.updated_rollouts, 3);
    assert_eq!(done.updated_threads, 4);
}

#[test]
fn sync_updates_follow_the_columns() {
    let ids = vec![s("t1"), s("t2")];
    let cwds = vec![(s("t1"), s("/w"))];
    assert!(provider_sync_updates(&vec![s("id")], "custom", &ids, &cwds).is_none());
    let u = provider_sync_updates(&vec![s("model_provider")], "custom", &ids, &cwds).unwrap();
    assert_eq!(u.len(), 1);
    assert_eq!(u[0].params, vec![s("custom")]);
    let u = provider_sync_updates(&vec![s("model_provider"), s("has_user_event"), s("cwd")], "custom", &ids, &cwds).unwrap();
    assert_eq!(u.len(), 4);
    assert_eq!(u[1].sql, "UPDATE threads SET has_user_event = 1 WHERE id = ?1 AND COALESCE(has_user_event, 0) <> 1");
    assert_eq!(u[2].params, vec![s("t2")]);
    assert_eq!(u[3].sql, "UPDATE threads SET cwd = ?1 WHERE id = ?2 AND COALESCE(cwd, '') <> ?1");
    assert_eq!(u[3].params, vec![s("/w"), s("t1")]);
}

#[test]
fn sqlite_files_sorted_then_legacy() {
    assert!(is_sqlite_extension("db"));
    assert!(is_sqlite_extension("sqlite3"));
    assert!(!is_sqlite_extension("DB"));
    let v = sqlite_candidate_paths(vec![s("/c/sqlite/b.db"), s("/c/sqlite/a.sqlite")], s("/c/state_5.sqlite"), true);
    assert_eq!(v, vec![s("/c/sqlite/a.sqlite"), s("/c/sqlite/b.db"), s("/c/state_5.sqlite")]);
    let v = sqlite_candidate_paths(vec![s("/c/state_5.sqlite")], s("/c/state_5.sqlite"), true);
    assert_eq!(v, vec![s("/c/state_5.sqlite")]);
    let v = sqlite_candidate_paths(vec![], s("/c/state_5.sqlite"), false);
    assert!(v.is_empty());
}

#[test]
fn messages_name_the_database() {
    assert_eq!(preview_open_warning("/a.db", "busy"), "无法读取会话数据库: /a.db (busy)");
    match sync_open_error("/a.db", "busy") {
        CodexxError::Database(m) => assert_eq!(m, "打开 SQLite 失败 /a.db: busy"),
        other => panic!("unexpected: {:?}", other),
    }
}

#[test]
fn status_lists_at_most_the_session_limit() {
    let rows: Vec<SessionPreview> = (0..60).map(|i| preview(&format!("t{i}"), Some(i))).collect();
    let mut with_dup = rows.clone();
    with_dup.push(preview("t59", Some(100)));
    let st = session_sync_status_inner(s("/c"), s("custom"), new_rollout_scan(0), new_sqlite_scan(), with_dup, vec![]);
    assert_eq!(st.sessions.len(), 50);
    assert_eq!(st.sessions[0].id, "t59");
    assert_eq!(st.sessions[0].updated_at_ms, Some(59));
    assert_eq!(st.sessions[49].id, "t10");
    let few = vec![preview("a", Some(1)), preview("b", Some(2)), preview("a", Some(3))];
    let st = session_sync_status_inner(s("/c"), s("custom"), new_rollout_scan(0), new_sqlite_scan(), few, vec![]);
    let ids: Vec<String> = st.sessions.iter().map(|p| p.id.clone()).collect();
    assert_eq!(ids, vec![s("b"), s("a")]);
}
