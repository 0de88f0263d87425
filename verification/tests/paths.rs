use codexx::paths::{
    app_home, auth_path, backup_root, ccswitch_candidates_from, ccswitch_db_candidates, config_path,
    db_path, default_ccswitch_db_path, default_codex_dir, provider_sync_backup_root,
    push_existing_candidate, resolve_codex_dir, CcSwitchEnv, TargetOs,
};
use codexx::error::CodexxError;

fn env(home: Option<&str>, os: TargetOs) -> CcSwitchEnv {
    CcSwitchEnv {
        cc_switch_home: home.map(|s| s.to_string()),
        appdata: Some("/appdata".to_string()),
        localappdata: None,
        xdg_data_home: Some("/xdg".to_string()),
        os,
    }
}

#[test]
fn named_directories_win() {
    assert_eq!(resolve_codex_dir(Some("  /work/codex ".to_string()), Some("/other".to_string())).unwrap(), "/work/codex");
    assert_eq!(resolve_codex_dir(Some(" ".to_string()), Some(" /env ".to_string())).unwrap(), "/env");
    assert_eq!(default_codex_dir(Some("/e".to_string())).unwrap(), "/e");
    assert_eq!(app_home(Some(" /h ".to_string())).unwrap(), "/h");
}

#[test]
fn defaults_live_under_home() {
    match app_home(Some("  ".to_string())) {
        Ok(p) => assert!(p.ends_with(".codexx")),
        Err(e) => assert!(matches!(e, CodexxError::NoHomeDir)),
    }
    match resolve_codex_dir(None, None) {
        Ok(p) => assert!(p.ends_with(".codex")),
        Err(e) => assert!(matches!(e, CodexxError::NoHomeDir)),
    }
}

#[test]
fn files_are_joined_under_their_directories() {
    assert_eq!(config_path("/c"), "/c/config.toml");
    assert_eq!(auth_path("/c/"), "/c/auth.json");
    assert_eq!(db_path("/h"), "/h/codexx.db");
    assert_eq!(backup_root("/h"), "/h/backups");
    assert_eq!(provider_sync_backup_root("/c"), "/c/backups_state/provider-sync");
}

#[test]
fn candidates_are_listed_once() {
    let mut v = vec!["/a".to_string()];
    push_existing_candidate(&mut v, Some("/b".to_string()));
    push_existing_candidate(&mut v, Some("/a".to_string()));
    push_existing_candidate(&mut v, None);
    assert_eq!(v, vec!["/a".to_string(), "/b".to_string()]);
}

#[test]
fn candidates_compared_as_paths() {
    let mut v = vec!["/a/b/cc-switch.db".to_string()];
    push_existing_candidate(&mut v, Some("/a//b/cc-switch.db".to_string()));
    push_existing_candidate(&mut v, Some("/a/./b/cc-switch.db".to_string()));
    push_existing_candidate(&mut v, Some("/a/b/cc-switch.db/".to_string()));
    assert_eq!(v, vec!["/a/b/cc-switch.db".to_string()]);
    push_existing_candidate(&mut v, Some("./a/b/cc-switch.db".to_string()));
    push_existing_candidate(&mut v, Some("/a/c/../b/cc-switch.db".to_string()));
    assert_eq!(v.len(), 3);
}

#[test]
fn cc_switch_home_naming_the_default_is_listed_once() {
    let v = ccswitch_candidates_from(&env(Some("/home/u//.cc-switch"), TargetOs::Other), "/home/u", None, None);
    assert_eq!(v, vec!["/home/u//.cc-switch/cc-switch.db"]);
    let v = ccswitch_candidates_from(&env(Some("/home/u/.cc-switch/."), TargetOs::Other), "/home/u", None, None);
    assert_eq!(v, vec!["/home/u/.cc-switch/./cc-switch.db"]);
}

#[test]
fn cc_switch_candidates_in_order() {
    let v = ccswitch_candidates_from(&env(Some(" /cs "), TargetOs::Linux), "/home/u", Some("/data".to_string()), Some("/data".to_string()));
    assert_eq!(
        v,
        vec![
            "/cs/cc-switch.db",
            "/home/u/.cc-switch/cc-switch.db",
            "/data/com.ccswitch.desktop/cc-switch.db",
            "/data/cc-switch/cc-switch.db",
            "/data/CC Switch/cc-switch.db",
            "/xdg/com.ccswitch.desktop/cc-switch.db",
            "/home/u/.local/share/com.ccswitch.desktop/cc-switch.db",
        ]
    );
    let v = ccswitch_candidates_from(&env(None, TargetOs::MacOs), "/Users/u", None, None);
    assert_eq!(
        v,
        vec!["/Users/u/.cc-switch/cc-switch.db", "/Users/u/Library/Application Support/com.ccswitch.desktop/cc-switch.db"]
    );
    let v = ccswitch_candidates_from(&env(Some(""), TargetOs::Windows), "/h", None, None);
    assert_eq!(v, vec!["/h/.cc-switch/cc-switch.db", "/appdata/com.ccswitch.desktop/cc-switch.db"]);
    let v = ccswitch_candidates_from(&env(None, TargetOs::Other), "/h", None, None);
    assert_eq!(v, vec!["/h/.cc-switch/cc-switch.db"]);
    if let Ok(v) = ccswitch_db_candidates(&env(Some("/cs"), TargetOs::Other)) {
        assert_eq!(v[0], "/cs/cc-switch.db");
    }
}

#[test]
fn default_database_is_the_first_that_exists() {
    let c = vec!["/a".to_string(), "/b".to_string(), "/c".to_string()];
    assert_eq!(default_ccswitch_db_path(&c, &vec![false, true, true]).unwrap(), "/b");
    assert_eq!(default_ccswitch_db_path(&c, &vec![false, false, false]).unwrap(), "/a");
    match default_ccswitch_db_path(&vec![], &vec![]) {
        Err(CodexxError::Config(m)) => assert_eq!(m, "无法生成 cc-switch 数据库候选路径"),
        other => panic!("unexpected: {:?}", other),
    }
}
