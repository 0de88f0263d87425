//! What each command writes, decided from what it read: the new `config.toml` text for a
//! provider switch, an official-provider switch, an instruction file being enabled or
//! disabled, a provider's own TOML; and the new `auth.json` text for an API key or an
//! official login. The app reads the files, calls these, and writes what they return.

use vstd::prelude::*;
use crate::text::{concat_str, copy_str, opt_view, trim_end, trim_end_str_ws};
use crate::auth::{
    api_key_spec, auth_with_api_key, auth_with_key_spec, json_file_text, official_auth_value,
    };
use crate::config::{
    disable_instruction_edit, instruction_config_edit, instruction_spec, official_config_edit,
    official_spec, parse_config_spec, parse_toml_document, require_model, str_value_spec,
    switch_provider_config, switch_refusal, switch_spec, wire_api_or_default, Entries,
};
use crate::error::CodexxError;
use crate::json::{json_parse_spec, json_pretty_spec, JsonModel};
use crate::toml::{remove_entry, toml_entries, toml_text, toml_to_string};

verus! {

/// `t` is the text `toml_edit` prints for a document whose root entries are `es`. The
/// printed text also keeps the comments and layout of the document it was read from, which
/// the entries do not hold.
pub open spec fn printed(t: Seq<char>, es: Entries) -> bool {
    exists|d: toml_edit::DocumentMut| toml_entries(d) == es && toml_text(d) == t
}

fn document_text(doc: &toml_edit::DocumentMut) -> (r: String)
    ensures
        printed(r@, toml_entries(*doc)),
{
    let t = toml_to_string(doc);
    assert(toml_entries(*doc) == toml_entries(*doc) && toml_text(*doc) == t@);
    t
}

/// The message of a TOML error against `path`.
pub open spec fn toml_error_at(r: Result<String, CodexxError>, path: Seq<char>) -> bool {
    r matches Err(CodexxError::Toml { path: p, .. }) && p@ == path
}

/// `config.toml` after a switch to a custom provider (see `switch_spec`): a config that does
/// not parse is reported against `config_path`; one whose `model_providers` (or its `custom`)
/// is not a table is refused.
pub fn switch_config_text(
    config_path: &str,
    config_text: &str,
    provider_name: &str,
    base_url: &str,
    model: &str,
    wire_api: Option<String>,
    requires_openai_auth: Option<bool>,
) -> (r: Result<String, CodexxError>)
    ensures
        match parse_config_spec(config_text@) {
            None => toml_error_at(r, config_path@),
            Some(es) => match switch_spec(
                es,
                provider_name@,
                base_url@,
                model@,
                wire_api_or_default(wire_api),
                match requires_openai_auth { Some(b) => b, None => true },
            ) {
                Some(es2) => r matches Ok(t) && printed(t@, es2),
                None => r matches Err(CodexxError::Config(m)) && m@ == switch_refusal(es, model@),
            },
        },
{
    let mut doc = match parse_toml_document(config_path, config_text) {
        Ok(d) => d,
        Err(e) => return Err(e),
    };
    match switch_provider_config(&mut doc, provider_name, base_url, model, wire_api, requires_openai_auth) {
        Ok(()) => Ok(document_text(&doc)),
        Err(e) => Err(e),
    }
}

/// `config.toml` after a switch to the official provider (see `official_spec`).
pub fn official_config_text(config_path: &str, config_text: &str, model: Option<String>) -> (r: Result<
    String,
    CodexxError,
>)
    ensures
        match parse_config_spec(config_text@) {
            None => toml_error_at(r, config_path@),
            Some(es) => r matches Ok(t) && printed(t@, official_spec(es, opt_view(model))),
        },
{
    let mut doc = match parse_toml_document(config_path, config_text) {
        Ok(d) => d,
        Err(e) => return Err(e),
    };
    official_config_edit(&mut doc, model);
    Ok(document_text(&doc))
}

/// `config.toml` with `model_instructions_file` pointing at `relative` (see
/// `instruction_spec`).
pub fn instruction_config_text(config_path: &str, config_text: &str, relative: &str) -> (r: Result<
    String,
    CodexxError,
>)
    ensures
        match parse_config_spec(config_text@) {
            None => toml_error_at(r, config_path@),
            Some(es) => r matches Ok(t) && printed(t@, instruction_spec(es, relative@)),
        },
{
    let mut doc = match parse_toml_document(config_path, config_text) {
        Ok(d) => d,
        Err(e) => return Err(e),
    };
    instruction_config_edit(&mut doc, relative);
    Ok(document_text(&doc))
}

/// `config.toml` without its instruction file, and whether one was set (a non-blank string).
pub fn disabled_config_text(config_path: &str, config_text: &str) -> (r: Result<(bool, String), CodexxError>)
    ensures
        match parse_config_spec(config_text@) {
            None => r matches Err(CodexxError::Toml { path: p, .. }) && p@ == config_path@,
            Some(es) => {
                let removed = str_value_spec(es, "model_instructions_file"@) is Some;
                r matches Ok((b, t)) && b == removed && printed(
                    t@,
                    if removed { remove_entry(es, "model_instructions_file"@) } else { es },
                )
            },
        },
{
    let mut doc = match parse_toml_document(config_path, config_text) {
        Ok(d) => d,
        Err(e) => return Err(e),
    };
    let removed = disable_instruction_edit(&mut doc);
    Ok((removed, document_text(&doc)))
}

/// A provider's own `config.toml`, as saved: the text without trailing whitespace, then one
/// newline. It must parse (else a TOML error against `config_path`) and set a model (else a
/// refusal).
pub fn provider_toml_config(config_path: &str, config_text: &str) -> (r: Result<String, CodexxError>)
    ensures
        match parse_config_spec(trim_end(config_text@)) {
            None => toml_error_at(r, config_path@),
            Some(es) => if str_value_spec(es, "model"@) is Some {
                r matches Ok(t) && t@ == trim_end(config_text@) + "\n"@
            } else {
                r matches Err(CodexxError::Config(m)) && m@ == "config.toml 必须包含 model"@
            },
        },
{
    let trimmed = trim_end_str_ws(config_text);
    let doc = match parse_toml_document(config_path, trimmed.as_str()) {
        Ok(d) => d,
        Err(e) => return Err(e),
    };
    match require_model(&doc) {
        Ok(()) => Ok(concat_str(trimmed.as_str(), "\n")),
        Err(e) => Err(e),
    }
}

/// `auth.json` after storing an API key (see `auth_with_key_spec`), pretty-printed with a
/// final newline; `existing` is its text, `None` when absent.
pub fn api_key_auth_text(existing: Option<String>, api_key: &str) -> (r: String)
    ensures
        r@ == json_pretty_spec(auth_with_key_spec(opt_view(existing), api_key@)) + "\n"@,
{
    let v = auth_with_api_key(existing, api_key);
    json_file_text(&v)
}

/// `auth.json` for an official login: nothing when the input is blank; otherwise the
/// trimmed input must parse (else a JSON error against `auth_path`) as an object (else a
/// refusal), and is written pretty-printed with a final newline.
pub fn official_auth_text(auth_path: &str, auth_json: Option<String>) -> (r: Result<Option<String>, CodexxError>)
    ensures
        match api_key_spec(auth_json) {
            None => r matches Ok(None),
            Some(t) => match json_parse_spec(t) {
                Some(m) => if m is Object {
                    r matches Ok(Some(out)) && out@ == json_pretty_spec(m) + "\n"@
                } else {
                    r matches Err(CodexxError::Config(msg)) && msg@ == "auth.json 必须是 JSON object"@
                },
                None => r matches Err(CodexxError::Json { path: p, .. }) && p@ == auth_path@,
            },
        },
{
    match official_auth_value(auth_path, auth_json) {
        Ok(None) => Ok(None),
        Ok(Some(v)) => Ok(Some(json_file_text(&v))),
        Err(e) => Err(e),
    }
}

} // verus!
