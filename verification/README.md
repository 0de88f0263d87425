# codexx

The backend of Codex-X, a desktop manager for the Codex CLI's configuration: it switches
`config.toml` between the official provider and custom relays, keeps `auth.json` in step,
enables instruction prompt files, keeps backups, imports providers from cc-switch, and
re-points recorded sessions (`rollout-*.jsonl` logs and the `threads` tables of Codex's
SQLite state) at the active provider.

The decisions are made by a library verified with Verus; a thin layer around it does the
file, database and process work.

## Layout

- `src/` — the verified library (`codexx`).
  - `text.rs` — trims, case folding and searches on characters, with their specifications.
  - `names.rs` — prompt file names, provider ids, instruction templates, SQL column lists.
  - `paths.rs` — the Codex directory, the app's home, backup roots, cc-switch candidates.
  - `toml.rs`, `config.rs` — `config.toml` as ordered entries; reading and editing it.
  - `json.rs`, `auth.rs` — JSON values; `auth.json` material, redaction, stored keys.
  - `sessions.rs`, `sync.rs` — session-log scanning and rewriting; SQLite tallies, the
    session list, the updates a sync runs.
  - `store.rs`, `ccswitch.rs`, `backups.rs` — saved providers and prompts, cc-switch rows,
    backup ids, listing order and pruning.
  - `commands.rs`, `actions.rs` — request validation, the state shown, and the text each
    command writes.
  - `laws.rs` — properties that span operations (read-back of edits, idempotence, orders).
- `tests/` — tests of the library on concrete values.
- `app/` — the I/O layer: environment, files, SQLite through `rusqlite`, child processes,
  and the command functions, with serde-enabled copies of the library's types.
