//! Verified core of the Codex-X configuration manager: name normalisation,
//! TOML configuration edits, session-log rewriting and the bookkeeping around them.

pub mod text;
pub mod names;
pub mod error;
pub mod paths;
pub mod json;
pub mod sessions;
pub mod sync;
pub mod toml;
pub mod config;
pub mod auth;
pub mod store;
pub mod ccswitch;
pub mod backups;
pub mod commands;
pub mod actions;
pub mod laws;
