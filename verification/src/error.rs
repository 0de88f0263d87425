//! The library's error type.

use vstd::prelude::*;

verus! {

#[verifier::external_type_specification]
#[verifier::external_body]
pub struct ExIoError(std::io::Error);

#[verifier::external_type_specification]
#[verifier::external_body]
pub struct ExJsonError(serde_json::Error);

/// Everything that can go wrong while reading or rewriting the Codex configuration.
#[derive(Debug)]
pub enum CodexxError {
    /// The user's home directory could not be found.
    NoHomeDir,
    /// A file operation failed.
    Io { path: String, source: std::io::Error },
    /// A `config.toml` did not parse.
    Toml { path: String, message: String },
    /// A JSON document did not parse or serialise.
    Json { path: String, source: serde_json::Error },
    /// A request was refused; the text says why.
    Config(String),
    /// A SQLite operation failed.
    Database(String),
}


/// An I/O failure at `path`.
pub fn io_err(path: &str, source: std::io::Error) -> (r: CodexxError)
    ensures
        r matches CodexxError::Io { path: p, .. } && p@ == path@,
{
    CodexxError::Io { path: crate::text::copy_str(path), source }
}

/// A JSON failure at `path`.
pub fn json_err(path: &str, source: serde_json::Error) -> (r: CodexxError)
    ensures
        r matches CodexxError::Json { path: p, .. } && p@ == path@,
{
    CodexxError::Json { path: crate::text::copy_str(path), source }
}

/// A database failure with the given text.
pub fn db_err(message: String) -> (r: CodexxError)
    ensures
        r == CodexxError::Database(message),
{
    CodexxError::Database(message)
}

} // verus!
