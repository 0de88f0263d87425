//! Importing from cc-switch: turning its stored Codex settings into saved providers, and
//! finding its official login.

use vstd::prelude::*;
use crate::text::{chars_of, concat_str, copy_str, lemma_starts_with_concat, opt_view, starts_with, strings_view, trim, trim_end_char, trim_str};
use crate::config::{str_item, str_value_spec, string_value};
use crate::error::CodexxError;
use crate::json::{
    json_error_message, find_member, json_get, json_parse, json_parse_spec, json_pretty_spec, json_str_member,
    json_to_pretty, model_get, str_member, JsonModel, JsonValue,
};
use crate::names::{sanitize_id_at, sanitize_id_spec};
use crate::store::{base_url_spec, normalize_base_url, SavedProvider};
use crate::toml::{lookup, sub_table, toml_entries, toml_get, toml_get_in2, toml_parse, toml_parse_spec, TomlItem, TomlKind};

verus! {

/// A string trimmed, unless that leaves nothing.
pub open spec fn trimmed_nonblank(o: Option<Seq<char>>) -> Option<Seq<char>> {
    match o {
        Some(s) => if trim(s).len() > 0 { Some(trim(s)) } else { None },
        None => None,
    }
}

/// The provider that the TOML settings `es` of a cc-switch row describe, when they name a
/// base URL: the active provider is `model_provider` (else `custom`); the base URL is that
/// provider table's `base_url` when it is a string, else the top-level `base_url`, and must
/// not be blank. The id is sanitised at `now_ms`; `api_key` is the row's API key.
pub open spec fn config_provider_matches(
    r: Option<SavedProvider>,
    id: Seq<char>,
    name: Seq<char>,
    api_key: Option<Seq<char>>,
    es: Seq<(Seq<char>, TomlItem)>,
    now_ms: int,
) -> bool {
    let model = match str_value_spec(es, "model"@) { Some(m) => m, None => "gpt-5.5"@ };
    let active = match str_value_spec(es, "model_provider"@) { Some(a) => a, None => "custom"@ };
    let table = match sub_table(es, "model_providers"@) {
        Some(ps) => sub_table(ps, active),
        None => None,
    };
    let in_table = |key: Seq<char>| match table {
        Some(t) => str_item(lookup(t, key)),
        None => None,
    };
    let raw_base = match in_table("base_url"@) {
        Some(b) => Some(b),
        None => str_item(lookup(es, "base_url"@)),
    };
    match trimmed_nonblank(raw_base) {
        None => r is None,
        Some(b) => r matches Some(p) && {
            &&& p.id@ == sanitize_id_spec(id, now_ms)
            &&& p.provider_name@ == match trimmed_nonblank(in_table("name"@)) {
                Some(n) => n,
                None => name,
            }
            &&& p.base_url@ == trim_end_char(b, '/')
            &&& p.model@ == model
            &&& opt_view(p.api_key) == api_key
            &&& p.wire_api@ == match trimmed_nonblank(in_table("wire_api"@)) {
                Some(w) => w,
                None => "responses"@,
            }
            &&& p.requires_openai_auth == match table {
                Some(t) => match lookup(t, "requires_openai_auth"@) {
                    Some(TomlItem::Bool(x)) => x,
                    _ => true,
                },
                None => true,
            }
        },
    }
}

/// The provider that the parsed settings `s` of a cc-switch row describe: the API key is
/// `auth.OPENAI_API_KEY` (trimmed, when not blank); the settings' `config` must be
/// non-blank TOML, read as `config_provider_matches` says.
pub open spec fn settings_provider_matches(
    r: Option<SavedProvider>,
    id: Seq<char>,
    name: Seq<char>,
    s: JsonModel,
    now_ms: int,
) -> bool {
    let api_key = match model_get(s, "auth"@) {
        Some(a) => trimmed_nonblank(str_member(a, "OPENAI_API_KEY"@)),
        None => None,
    };
    let config = match str_member(s, "config"@) { Some(c) => c, None => Seq::empty() };
    if trim(config).len() == 0 {
        r is None
    } else {
        match toml_parse_spec(config) {
            None => r is None,
            Some(es) => config_provider_matches(r, id, name, api_key, es, now_ms),
        }
    }
}

/// The provider that cc-switch settings describe, when they name a base URL: the settings
/// parse as JSON and are read as `settings_provider_matches` says.
pub open spec fn ccswitch_provider_matches(
    r: Option<SavedProvider>,
    id: Seq<char>,
    name: Seq<char>,
    settings: Seq<char>,
    now_ms: int,
) -> bool {
    match json_parse_spec(settings) {
        None => r is None,
        Some(s) => settings_provider_matches(r, id, name, s, now_ms),
    }
}

fn nonblank_str(o: Option<&String>) -> (r: Option<String>)
    ensures
        match r {
            Some(s) => trimmed_nonblank(match o { Some(x) => Some(x@), None => None }) == Some(s@),
            None => trimmed_nonblank(match o { Some(x) => Some(x@), None => None }) is None,
        },
{
    match o {
        Some(x) => {
            let t = trim_str(x.as_str());
            if t.as_str().is_empty() { None } else { Some(t) }
        },
        None => None,
    }
}

fn kind_str(k: TomlKind) -> (r: Option<String>)
    ensures
        r == match k {
            TomlKind::Str(s) => Some(s),
            _ => None,
        },
{
    match k {
        TomlKind::Str(s) => Some(s),
        _ => None,
    }
}

/// The provider that the TOML settings `doc` of a cc-switch row describe (see
/// `config_provider_matches`), with the id sanitised at the clock reading `now_ms`.
pub fn ccswitch_provider_from_config(
    id: &str,
    name: &str,
    api_key: Option<String>,
    doc: &toml_edit::DocumentMut,
    now_ms: i64,
) -> (r: Option<SavedProvider>)
    ensures
        config_provider_matches(r, id@, name@, opt_view(api_key), toml_entries(*doc), now_ms as int),
{
    proof {
        reveal_strlit("model");
        reveal_strlit("model_provider");
        reveal_strlit("model_providers");
        reveal_strlit("base_url");
        reveal_strlit("name");
        reveal_strlit("wire_api");
        reveal_strlit("requires_openai_auth");
        reveal_strlit("custom");
        reveal_strlit("gpt-5.5");
        reveal_strlit("responses");
    }
    let model = match string_value(doc, "model") {
        Some(m) => m,
        None => copy_str("gpt-5.5"),
    };
    let active = match string_value(doc, "model_provider") {
        Some(a) => a,
        None => copy_str("custom"),
    };
    let base_in_table = kind_str(toml_get_in2(doc, "model_providers", active.as_str(), "base_url"));
    let raw_base = match base_in_table {
        Some(b) => Some(b),
        None => kind_str(toml_get(doc, "base_url")),
    };
    let base = match nonblank_str(raw_base.as_ref()) {
        Some(b) => b,
        None => return None,
    };
    let base_url = {
        let v = chars_of(base.as_str());
        let w = crate::text::trim_end_char_chars(v.as_slice(), '/');
        crate::text::string_of(w.as_slice())
    };
    let provider_name = match nonblank_str(kind_str(toml_get_in2(doc, "model_providers", active.as_str(), "name")).as_ref()) {
        Some(n) => n,
        None => copy_str(name),
    };
    let wire_api = match nonblank_str(kind_str(toml_get_in2(doc, "model_providers", active.as_str(), "wire_api")).as_ref()) {
        Some(w) => w,
        None => copy_str("responses"),
    };
    let requires_openai_auth = match toml_get_in2(doc, "model_providers", active.as_str(), "requires_openai_auth") {
        TomlKind::Bool(b) => b,
        _ => true,
    };
    Some(SavedProvider {
        id: sanitize_id_at(id, now_ms),
        provider_name,
        base_url,
        model,
        api_key,
        wire_api,
        requires_openai_auth,
    })
}

/// The provider that the parsed settings of a cc-switch row describe (see
/// `settings_provider_matches`), with the id sanitised at the clock reading `now_ms`.
pub fn ccswitch_provider_from_settings(id: &str, name: &str, settings: &JsonValue, now_ms: i64) -> (r: Option<SavedProvider>)
    ensures
        settings_provider_matches(r, id@, name@, settings@, now_ms as int),
{
    proof {
        reveal_strlit("auth");
        reveal_strlit("OPENAI_API_KEY");
        reveal_strlit("config");
    }
    let api_key = match json_get(settings, "auth") {
        Some(a) => nonblank_str(json_str_member(a, "OPENAI_API_KEY")),
        None => None,
    };
    let config = match json_str_member(settings, "config") {
        Some(c) => copy_str(c.as_str()),
        None => String::new(),
    };
    let tc = trim_str(config.as_str());
    if tc.as_str().is_empty() {
        return None;
    }
    match toml_parse(config.as_str()) {
        Ok(doc) => ccswitch_provider_from_config(id, name, api_key, &doc, now_ms),
        Err(_) => None,
    }
}

/// The provider that cc-switch settings describe (see `ccswitch_provider_matches`), with the
/// id sanitised at the clock reading `now_ms`.
pub fn ccswitch_provider_at(id: &str, name: &str, settings_config: &str, now_ms: i64) -> (r: Option<SavedProvider>)
    ensures
        ccswitch_provider_matches(r, id@, name@, settings_config@, now_ms as int),
{
    match json_parse(settings_config) {
        Ok(s) => ccswitch_provider_from_settings(id, name, &s, now_ms),
        Err(_) => None,
    }
}

/// The provider that cc-switch settings describe, its id sanitised at the current time.
pub fn extract_ccswitch_codex_provider(id: &str, name: &str, settings_config: &str) -> (r: Option<SavedProvider>)
    ensures
        exists|now: i64| ccswitch_provider_matches(r, id@, name@, settings_config@, now as int),
{
    let now = crate::names::now_millis();
    ccswitch_provider_at(id, name, settings_config, now)
}

/// The official login found in cc-switch.
#[derive(Clone, Debug)]
pub struct OfficialAuthCandidate {
    pub auth_json: String,
    pub model: Option<String>,
    pub source: String,
}

/// The `auth` member of the settings, taken out.
fn take_member(v: JsonValue, key: &str) -> (r: Option<JsonValue>)
    ensures
        match r {
            Some(x) => model_get(v@, key@) == Some(x@),
            None => model_get(v@, key@) is None,
        },
{
    let ghost vm = v@;
    match v {
        JsonValue::Object(mut ms) => {
            match find_member(&ms, key) {
                Some(i) => {
                    let (_, x) = ms.remove(i);
                    Some(x)
                },
                None => None,
            }
        },
        _ => None,
    }
}

/// The official login in the parsed settings `s` of a cc-switch row: they must hold an
/// `auth` object, which is printed as `auth.json`; the model comes from the settings'
/// `config` when that parses as TOML; the source names the row.
pub open spec fn official_auth_matches(
    r: Result<OfficialAuthCandidate, CodexxError>,
    id: Seq<char>,
    name: Seq<char>,
    s: JsonModel,
) -> bool {
    match model_get(s, "auth"@) {
        Some(a) => if a is Object {
            r matches Ok(c) && c.auth_json@ == json_pretty_spec(a) && c.source@ == "cc-switch:"@ + name
                + ":"@ + id && opt_view(c.model) == match str_member(s, "config"@) {
                Some(cfg) => match toml_parse_spec(cfg) {
                    Some(es) => str_value_spec(es, "model"@),
                    None => None,
                },
                None => None,
            }
        } else {
            r matches Err(CodexxError::Database(m)) && m@ == "cc-switch official provider 缺少 auth object"@
        },
        None => r matches Err(CodexxError::Database(m)) && m@ == "cc-switch official provider 缺少 auth object"@,
    }
}

/// The official login in the parsed settings of a cc-switch row (see
/// `official_auth_matches`).
pub fn official_auth_from_settings(id: &str, name: &str, settings: JsonValue) -> (r: Result<
    OfficialAuthCandidate,
    CodexxError,
>)
    ensures
        official_auth_matches(r, id@, name@, settings@),
{
    proof {
        reveal_strlit("auth");
        reveal_strlit("config");
        reveal_strlit("model");
    }
    let model = match json_str_member(&settings, "config") {
        Some(cfg) => match toml_parse(cfg.as_str()) {
            Ok(doc) => string_value(&doc, "model"),
            Err(_) => None,
        },
        None => None,
    };
    let ghost sm = settings@;
    let auth = match take_member(settings, "auth") {
        Some(a) => match a {
            JsonValue::Object(_) => a,
            _ => return Err(CodexxError::Database(copy_str("cc-switch official provider 缺少 auth object"))),
        },
        None => return Err(CodexxError::Database(copy_str("cc-switch official provider 缺少 auth object"))),
    };
    let auth_json = match json_to_pretty(&auth) {
        Ok(t) => t,
        Err(_) => {
            proof {
                assert(false);
            }
            String::new()
        },
    };
    let a = concat_str("cc-switch:", name);
    let b = concat_str(a.as_str(), ":");
    let source = concat_str(b.as_str(), id);
    Ok(OfficialAuthCandidate { auth_json, model, source })
}

/// The official login in a cc-switch row: its settings must parse as JSON, and are then
/// read as `official_auth_matches` says.
pub fn official_auth_candidate(id: &str, name: &str, settings_config: &str) -> (r: Result<
    OfficialAuthCandidate,
    CodexxError,
>)
    ensures
        match json_parse_spec(settings_config@) {
            None => r matches Err(CodexxError::Database(m)) && starts_with(
                m@,
                "cc-switch official settings JSON 解析失败: "@,
            ),
            Some(s) => official_auth_matches(r, id@, name@, s),
        },
{
    match json_parse(settings_config) {
        Ok(s) => official_auth_from_settings(id, name, s),
        Err(e) => {
            let m = json_error_message(&e);
            let msg = concat_str("cc-switch official settings JSON 解析失败: ", m.as_str());
            proof { lemma_starts_with_concat("cc-switch official settings JSON 解析失败: "@, m@); }
            Err(CodexxError::Database(msg))
        },
    }
}

/// The outcome of an import.
#[derive(Clone, Debug)]
pub struct ImportResult {
    pub imported: usize,
    pub skipped: usize,
    pub warnings: Vec<String>,
    pub providers: Vec<SavedProvider>,
}

/// The note for a cc-switch row that held no usable provider.
pub fn import_skip_warning(name: &str, id: &str) -> (r: String)
    ensures
        r@ == "跳过 "@ + name@ + " ("@ + id@ + ")：未找到可用 config/base_url，可能是官方登录或空模板"@,
{
    let a = concat_str("跳过 ", name);
    let b = concat_str(a.as_str(), " (");
    let c = concat_str(b.as_str(), id);
    concat_str(c.as_str(), ")：未找到可用 config/base_url，可能是官方登录或空模板")
}

/// Counts one cc-switch row of an import: a usable provider (already saved) counts as
/// imported; any other row is skipped, with a note.
pub fn record_import_row(result: &mut ImportResult, name: &str, id: &str, imported: bool)
    requires
        imported ==> old(result).imported < usize::MAX,
        !imported ==> old(result).skipped < usize::MAX,
    ensures
        final(result).imported == old(result).imported + if imported { 1int } else { 0 },
        final(result).skipped == old(result).skipped + if imported { 0int } else { 1 },
        imported ==> final(result).warnings@ == old(result).warnings@,
        !imported ==> strings_view(final(result).warnings@) == strings_view(old(result).warnings@).push(
            "跳过 "@ + name@ + " ("@ + id@ + ")：未找到可用 config/base_url，可能是官方登录或空模板"@,
        ),
        final(result).providers == old(result).providers,
{
    if imported {
        result.imported = result.imported + 1;
    } else {
        result.skipped = result.skipped + 1;
        let w = import_skip_warning(name, id);
        let ghost before = result.warnings@;
        result.warnings.push(w);
        assert(strings_view(result.warnings@) =~= strings_view(before).push(w@));
    }
}

/// `parts` joined with `sep` between them (`[String]::join`).
pub open spec fn join_spec(parts: Seq<Seq<char>>, sep: Seq<char>) -> Seq<char>
    decreases parts.len(),
{
    if parts.len() == 0 {
        Seq::empty()
    } else if parts.len() == 1 {
        parts[0]
    } else {
        join_spec(parts.drop_last(), sep) + sep + parts.last()
    }
}

pub fn join_strings(parts: &Vec<String>, sep: &str) -> (r: String)
    ensures
        r@ == join_spec(parts@.map_values(|s: String| s@), sep@),
{
    let ghost pv = parts@.map_values(|s: String| s@);
    let mut out = String::new();
    for i in 0..parts.len()
        invariant
            pv == parts@.map_values(|s: String| s@),
            out@ == join_spec(pv.take(i as int), sep@),
    {
        assert(pv.take(i + 1).drop_last() =~= pv.take(i as int));
        if i == 0 {
            out = copy_str(parts[i].as_str());
            assert(pv.take(1) =~= seq![pv[0]]);
        } else {
            let a = concat_str(out.as_str(), sep);
            out = concat_str(a.as_str(), parts[i].as_str());
        }
    }
    assert(pv.take(parts@.len() as int) =~= pv);
    out
}

/// The refusal when the cc-switch database is missing: it names the path and lists every
/// candidate that was checked.
pub fn missing_ccswitch_db_error(db: &str, candidates: &Vec<String>) -> (r: CodexxError)
    ensures
        r matches CodexxError::Config(m) && m@ == "cc-switch 数据库不存在: "@ + db@ + "\n已检查候选路径:\n- "@
            + join_spec(candidates@.map_values(|s: String| s@), "\n- "@),
{
    let list = join_strings(candidates, "\n- ");
    let a = concat_str("cc-switch 数据库不存在: ", db);
    let b = concat_str(a.as_str(), "\n已检查候选路径:\n- ");
    CodexxError::Config(concat_str(b.as_str(), list.as_str()))
}

/// The refusal when the cc-switch database does not open.
pub fn ccswitch_open_error(db: &str, reason: &str) -> (r: CodexxError)
    ensures
        r matches CodexxError::Database(m) && m@ == "打开 cc-switch 数据库失败 "@ + db@ + ": "@ + reason@,
{
    let a = concat_str("打开 cc-switch 数据库失败 ", db);
    let b = concat_str(a.as_str(), ": ");
    CodexxError::Database(concat_str(b.as_str(), reason))
}

} // verus!
