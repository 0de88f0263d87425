//! What the app's commands decide: request validation, the state shown after each action,
//! and the messages they answer with.

use vstd::prelude::*;
use crate::text::{concat_str, copy_str, opt_view, trim, trim_str};
use crate::auth::{auth_has_material, has_material, redacted_auth_preview, redacted_spec};
use crate::backups::BackupEntry;
use crate::config::{
    extract_providers, parse_config_spec, parse_toml_document, provider_tables, str_value_spec,
    string_value, summary_matches, ProviderSummary,
};
use crate::error::CodexxError;
use crate::json::{json_parse_spec, JsonValue};
use crate::names::{is_managed_instruction_value, is_managed_spec};
use crate::store::base_url_spec;
use crate::toml::toml_entries;

verus! {

/// A request to switch to a custom provider.
#[derive(Clone, Debug)]
pub struct ProviderInput {
    pub config_dir: Option<String>,
    pub provider_name: String,
    pub base_url: String,
    pub model: String,
    pub api_key: Option<String>,
    pub wire_api: Option<String>,
    pub requires_openai_auth: Option<bool>,
}

/// A request to save a provider's whole `config.toml`.
#[derive(Clone, Debug)]
pub struct ProviderTomlInput {
    pub config_dir: Option<String>,
    pub config_text: String,
    pub api_key: Option<String>,
}

/// A request to switch to (or configure) the official provider.
#[derive(Clone, Debug)]
pub struct OfficialConfigInput {
    pub config_dir: Option<String>,
    pub model: Option<String>,
    pub auth_json: Option<String>,
}

/// The name, base URL and model of a switch request, trimmed (the URL without trailing
/// slashes); a blank one is refused, in that order.
pub open spec fn switch_fields_spec(input: ProviderInput) -> Result<(Seq<char>, Seq<char>, Seq<char>), Seq<char>> {
    let name = trim(input.provider_name@);
    let base = base_url_spec(input.base_url@);
    let model = trim(input.model@);
    if name.len() == 0 {
        Err("供应商名称不能为空"@)
    } else if base.len() == 0 {
        Err("base_url 不能为空"@)
    } else if model.len() == 0 {
        Err("model 不能为空"@)
    } else {
        Ok((name, base, model))
    }
}

pub fn switch_fields(input: &ProviderInput) -> (r: Result<(String, String, String), CodexxError>)
    ensures
        match switch_fields_spec(*input) {
            Ok((n, b, m)) => r matches Ok((x, y, z)) && x@ == n && y@ == b && z@ == m,
            Err(msg) => r matches Err(CodexxError::Config(e)) && e@ == msg,
        },
{
    let name = trim_str(input.provider_name.as_str());
    let base = crate::store::normalize_base_url(input.base_url.as_str());
    let model = trim_str(input.model.as_str());
    if name.as_str().is_empty() {
        return Err(CodexxError::Config(copy_str("供应商名称不能为空")));
    }
    if base.as_str().is_empty() {
        return Err(CodexxError::Config(copy_str("base_url 不能为空")));
    }
    if model.as_str().is_empty() {
        return Err(CodexxError::Config(copy_str("model 不能为空")));
    }
    Ok((name, base, model))
}

/// The main screen's view of a Codex directory.
#[derive(Debug)]
pub struct CodexState {
    pub codex_dir: String,
    pub config_path: String,
    pub auth_path: String,
    pub config_exists: bool,
    pub auth_exists: bool,
    pub official_auth_available: bool,
    pub model: Option<String>,
    pub model_provider: Option<String>,
    pub instruction_file: Option<String>,
    pub instruction_enabled: bool,
    pub providers: Vec<ProviderSummary>,
    pub config_text: String,
    pub auth_preview: Option<JsonValue>,
    pub auth_text: String,
    pub last_backup: Option<BackupEntry>,
}

/// What the files say, as read: `config_text` is the config's text (empty when absent);
/// `auth_text` is `auth.json`'s text, `None` when absent.
#[derive(Clone, Debug)]
pub struct CodexFiles {
    pub codex_dir: String,
    pub config_path: String,
    pub auth_path: String,
    pub config_exists: bool,
    pub config_text: String,
    pub auth_text: Option<String>,
    pub last_backup: Option<BackupEntry>,
}

/// The state shown for these files: the config's model, provider and instruction file
/// (trimmed, non-blank strings), whether the instruction file is a managed one, its provider
/// tables, whether `auth.json` holds credentials and its redacted preview. A config that does
/// not parse, or an `auth.json` that does not, is reported.
pub open spec fn state_matches(s: CodexState, f: CodexFiles) -> bool {
    &&& s.codex_dir == f.codex_dir
    &&& s.config_path == f.config_path
    &&& s.auth_path == f.auth_path
    &&& s.config_exists == f.config_exists
    &&& s.auth_exists == (f.auth_text is Some)
    &&& s.config_text == f.config_text
    &&& s.last_backup == f.last_backup
    &&& match parse_config_spec(f.config_text@) {
        Some(es) => {
            &&& opt_view(s.model) == str_value_spec(es, "model"@)
            &&& opt_view(s.model_provider) == str_value_spec(es, "model_provider"@)
            &&& opt_view(s.instruction_file) == str_value_spec(es, "model_instructions_file"@)
            &&& s.instruction_enabled == (str_value_spec(es, "model_instructions_file"@) matches Some(v) && is_managed_spec(v))
            &&& s.providers@.len() == provider_tables(es).len()
            &&& forall|i: int| 0 <= i < s.providers@.len() ==> summary_matches(
                #[trigger] s.providers@[i],
                provider_tables(es)[i].0,
                provider_tables(es)[i].1,
                str_value_spec(es, "model_provider"@),
            )
        },
        None => false,
    }
    &&& match f.auth_text {
        None => !s.official_auth_available && s.auth_preview is None && s.auth_text@.len() == 0,
        Some(t) => s.auth_text@ == t@ && match json_parse_spec(t@) {
            Some(m) => s.official_auth_available == has_material(m) && (s.auth_preview matches Some(p) && p@ == redacted_spec(m)),
            None => false,
        },
    }
}

pub fn build_state(f: CodexFiles) -> (r: Result<CodexState, CodexxError>)
    ensures
        match r {
            Ok(s) => state_matches(s, f),
            Err(e) => match parse_config_spec(f.config_text@) {
                None => e matches CodexxError::Toml { path, .. } && path@ == f.config_path@,
                Some(_) => (f.auth_text matches Some(t) && json_parse_spec(t@) is None)
                    && (e matches CodexxError::Json { path, .. } && path@ == f.auth_path@),
            },
        },
{
    let ghost f0 = f;
    let doc = match parse_toml_document(f.config_path.as_str(), f.config_text.as_str()) {
        Ok(d) => d,
        Err(e) => return Err(e),
    };
    let model = string_value(&doc, "model");
    let model_provider = string_value(&doc, "model_provider");
    let instruction_file = string_value(&doc, "model_instructions_file");
    let instruction_enabled = match &instruction_file {
        Some(v) => is_managed_instruction_value(v.as_str()),
        None => false,
    };
    let providers = match &model_provider {
        Some(p) => extract_providers(&doc, Some(p.as_str())),
        None => extract_providers(&doc, None),
    };
    let auth_exists = f.auth_text.is_some();
    let official = match &f.auth_text {
        Some(t) => match auth_has_material(f.auth_path.as_str(), Some(copy_str(t.as_str()))) {
            Ok(b) => b,
            Err(e) => return Err(e),
        },
        None => false,
    };
    let preview = match &f.auth_text {
        Some(t) => match redacted_auth_preview(f.auth_path.as_str(), Some(copy_str(t.as_str()))) {
            Ok(p) => p,
            Err(e) => return Err(e),
        },
        None => None,
    };
    let auth_text = match &f.auth_text {
        Some(t) => copy_str(t.as_str()),
        None => String::new(),
    };
    Ok(CodexState {
        codex_dir: f.codex_dir,
        config_path: f.config_path,
        auth_path: f.auth_path,
        config_exists: f.config_exists,
        auth_exists,
        official_auth_available: official,
        model,
        model_provider,
        instruction_file,
        instruction_enabled,
        providers,
        config_text: f.config_text,
        auth_preview: preview,
        auth_text,
        last_backup: f.last_backup,
    })
}

/// The answer to an action: it succeeded, with a message, the backup it made and the state
/// afterwards.
#[derive(Debug)]
pub struct ActionResult {
    pub ok: bool,
    pub message: String,
    pub backup_id: Option<String>,
    pub state: CodexState,
}

pub fn action_result(message: String, backup_id: Option<String>, state: CodexState) -> (r: ActionResult)
    ensures
        r.ok,
        r.message == message,
        r.backup_id == backup_id,
        r.state == state,
{
    ActionResult { ok: true, message, backup_id, state }
}

/// `已切换到 <provider> / <model>`.
pub fn switched_message(provider_name: &str, model: &str) -> (r: String)
    ensures
        r@ == "已切换到 "@ + provider_name@ + " / "@ + model@,
{
    let a = concat_str("已切换到 ", provider_name);
    let b = concat_str(a.as_str(), " / ");
    concat_str(b.as_str(), model)
}

/// `已启用 <what>`.
pub fn enabled_message(what: &str) -> (r: String)
    ensures
        r@ == "已启用 "@ + what@,
{
    concat_str("已启用 ", what)
}

/// The answer to disabling the instruction file.
pub fn disabled_message(removed: bool) -> (r: String)
    ensures
        r@ == if removed { "已禁用指令提示词"@ } else { "当前未设置 model_instructions_file"@ },
{
    if removed { copy_str("已禁用指令提示词") } else { copy_str("当前未设置 model_instructions_file") }
}

/// `已恢复备份 <id>`.
pub fn restored_message(backup_id: &str) -> (r: String)
    ensures
        r@ == "已恢复备份 "@ + backup_id@,
{
    concat_str("已恢复备份 ", backup_id)
}

/// The refusal to restore a backup that does not exist.
pub fn missing_backup_error(backup_id: &str) -> (r: CodexxError)
    ensures
        r matches CodexxError::Config(m) && m@ == "备份不存在: "@ + backup_id@,
{
    CodexxError::Config(concat_str("备份不存在: ", backup_id))
}

/// The refusal to start a sync while another holds the lock.
pub fn sync_lock_error(lock_dir: &str) -> (r: CodexxError)
    ensures
        r matches CodexxError::Config(m) && m@ == "会话同步锁已存在: "@ + lock_dir@,
{
    CodexxError::Config(concat_str("会话同步锁已存在: ", lock_dir))
}

/// What the About screen shows.
#[derive(Clone, Debug)]
pub struct AboutInfo {
    pub app_version: String,
    pub codex_version: Option<String>,
    pub codex_dir: String,
    pub project_url: String,
    pub github_repo: String,
}

pub fn about_info(app_version: String, codex_version: Option<String>, codex_dir: String) -> (r: AboutInfo)
    ensures
        r.app_version == app_version,
        r.codex_version == codex_version,
        r.codex_dir == codex_dir,
        r.project_url@ == "https://github.com/yynxxxxx/Codex-X"@,
        r.github_repo@ == "yynxxxxx/Codex-X"@,
{
    AboutInfo {
        app_version,
        codex_version,
        codex_dir,
        project_url: copy_str("https://github.com/yynxxxxx/Codex-X"),
        github_repo: copy_str("yynxxxxx/Codex-X"),
    }
}

/// The Codex version: what `codex --version` printed, else `codex -V`, else the macOS app
/// bundle's version (each `None` when it printed nothing usable).
pub fn detect_codex_version(by_version_flag: Option<String>, by_v_flag: Option<String>, by_app_bundle: Option<String>) -> (r: Option<String>)
    ensures
        r == match by_version_flag {
            Some(v) => Some(v),
            None => match by_v_flag {
                Some(v) => Some(v),
                None => by_app_bundle,
            },
        },
{
    match by_version_flag {
        Some(v) => Some(v),
        None => match by_v_flag {
            Some(v) => Some(v),
            None => by_app_bundle,
        },
    }
}

/// The version a command printed: its output trimmed, `None` when it failed or printed
/// nothing.
pub fn command_version(success: bool, stdout: &str) -> (r: Option<String>)
    ensures
        match r {
            Some(v) => success && trim(stdout@).len() > 0 && v@ == trim(stdout@),
            None => !success || trim(stdout@).len() == 0,
        },
{
    if !success {
        return None;
    }
    let t = trim_str(stdout);
    if t.as_str().is_empty() { None } else { Some(t) }
}

/// Off macOS there is no app bundle to ask.
pub fn macos_codex_app_version() -> (r: Option<String>)
    ensures
        r is None,
{
    None
}


/// The reference `config.toml` holds to a prompt file next to it: `./<filename>`.
pub fn prompt_reference(filename: &str) -> (r: String)
    ensures
        r@ == "./"@ + filename@,
{
    concat_str("./", filename)
}

/// The text a provider's `config.toml` is saved as: without trailing whitespace, then one
/// newline.
pub fn provider_toml_text(config_text: &str) -> (r: String)
    ensures
        r@ == crate::text::trim_end(config_text@) + "\n"@,
{
    let t = crate::text::trim_end_str_ws(config_text);
    concat_str(t.as_str(), "\n")
}

/// The URL to open: trimmed, and refused when blank.
pub fn url_to_open(url: &str) -> (r: Result<String, String>)
    ensures
        match r {
            Ok(u) => trim(url@).len() > 0 && u@ == trim(url@),
            Err(m) => trim(url@).len() == 0 && m@ == "URL 为空"@,
        },
{
    let t = trim_str(url);
    if t.as_str().is_empty() {
        return Err(copy_str("URL 为空"));
    }
    Ok(t)
}

} // verus!
