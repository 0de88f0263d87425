use codexx::backups::{
    backup_id, latest_backup, new_backup_id, new_sync_snapshot_name, now_rfc3339,
    read_backup_entry, snapshots_to_prune, sort_backups, sort_names_asc, string_lt,
    sync_snapshot_name, BackupEntry, BackupMeta,
};

fn entry(id: &str, at: &str) -> BackupEntry {
    BackupEntry {
        id: id.to_string(),
        action: "x".to_string(),
        created_at: at.to_string(),
        path: format!("/b/{id}"),
        had_config: true,
        had_auth: false,
    }
}

#[test]
fn backup_ids_join_stamp_and_action() {
    assert_eq!(backup_id("20240102-030405", "switch-provider"), "20240102-030405-switch-provider");
    let id = new_backup_id("restore");
    assert!(id.ends_with("-restore"));
    assert_eq!(id.len(), "20240102-030405-restore".len());
    assert!(!now_rfc3339().is_empty());
}

#[test]
fn entries_come_from_meta() {
    let meta = BackupMeta {
        id: "i".to_string(),
        action: "a".to_string(),
        created_at: "t".to_string(),
        codex_dir: "/c".to_string(),
        config_path: "/c/config.toml".to_string(),
        auth_path: "/c/auth.json".to_string(),
        had_config: false,
        had_auth: true,
    };
    let e = read_backup_entry(meta, "/b/i".to_string());
    assert_eq!((e.id.as_str(), e.action.as_str(), e.created_at.as_str(), e.path.as_str()), ("i", "a", "t", "/b/i"));
    assert!(!e.had_config);
    assert!(e.had_auth);
}

#[test]
fn backups_are_listed_newest_first() {
    let v = sort_backups(vec![entry("a", "2024-01-01"), entry("b", "2024-03-01"), entry("c", "2024-02-01"), entry("d", "2024-03-01")]);
    let ids: Vec<&str> = v.iter().map(|e| e.id.as_str()).collect();
    assert_eq!(ids, vec!["b", "d", "c", "a"]);
    assert_eq!(latest_backup(vec![entry("a", "1"), entry("b", "3"), entry("c", "2")]).unwrap().id, "b");
    assert!(latest_backup(vec![]).is_none());
}

#[test]
fn text_order_is_by_characters() {
    assert!(string_lt("abc", "abd"));
    assert!(string_lt("ab", "abc"));
    assert!(!string_lt("abc", "abc"));
    assert!(!string_lt("b", "abc"));
    assert_eq!(sort_names_asc(vec!["b".to_string(), "a".to_string(), "c".to_string()]), vec!["a", "b", "c"]);
}

#[test]
fn only_five_snapshots_are_kept() {
    let names: Vec<String> = ["20240101", "20240107", "20240103", "20240105", "20240102", "20240106", "20240104"]
        .iter()
        .map(|s| s.to_string())
        .collect();
    assert_eq!(snapshots_to_prune(names), vec!["20240102".to_string(), "20240101".to_string()]);
    assert!(snapshots_to_prune(vec!["a".to_string(); 5]).is_empty());
}

#[test]
fn snapshot_names_take_a_suffix() {
    assert_eq!(sync_snapshot_name("20240101120000", 0), "20240101120000");
    assert_eq!(sync_snapshot_name("20240101120000", 12), "20240101120000-12");
    let n = new_sync_snapshot_name(3);
    assert!(n.ends_with("-3"));
    assert_eq!(n.len(), "20240101120000-3".len());
}
