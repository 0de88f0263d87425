use codexx::error::{db_err, io_err, json_err, CodexxError};

#[test]
fn errors_carry_their_path_or_message() {
    match io_err("/c/config.toml", std::io::Error::new(std::io::ErrorKind::NotFound, "gone")) {
        CodexxError::Io { path, source } => {
            assert_eq!(path, "/c/config.toml");
            assert_eq!(source.kind(), std::io::ErrorKind::NotFound);
        }
        other => panic!("unexpected: {:?}", other),
    }
    let bad = serde_json::from_str::<serde_json::Value>("{").unwrap_err();
    match json_err("/c/auth.json", bad) {
        CodexxError::Json { path, .. } => assert_eq!(path, "/c/auth.json"),
        other => panic!("unexpected: {:?}", other),
    }
    match db_err("locked".to_string()) {
        CodexxError::Database(m) => assert_eq!(m, "locked"),
        other => panic!("unexpected: {:?}", other),
    }
}
