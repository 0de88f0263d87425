//! `auth.json`: whether it holds credentials, its redacted preview, and the edits that
//! store an API key or an official login.

use vstd::prelude::*;
use crate::text::{chars_of, contains_exec, contains_seq, copy_str, lower_chars, lower_seq, opt_view, string_of, trim, trim_str};
use crate::error::CodexxError;
use crate::json::{
    find_member, json_parse, json_parse_spec, json_pretty_spec, json_to_pretty, member_index,
    set_member, JsonModel, JsonValue,
};

verus! {

/// A member value that counts as credential material: a non-blank string, a non-empty
/// array or object, a number or a boolean; `null` does not.
pub open spec fn is_material(v: JsonModel) -> bool {
    match v {
        JsonModel::Null => false,
        JsonModel::Str(s) => trim(s).len() > 0,
        JsonModel::Array(a) => a.len() > 0,
        JsonModel::Object(o) => o.len() > 0,
        _ => true,
    }
}

/// An object with a member other than `auth_mode` that holds material.
pub open spec fn has_material(v: JsonModel) -> bool {
    match v {
        JsonModel::Object(ms) => exists|i: int| 0 <= i < ms.len() && ms[i].0 != "auth_mode"@ && is_material(ms[i].1),
        _ => false,
    }
}

fn material_exec(v: &JsonValue) -> (r: bool)
    ensures
        r == is_material(v@),
{
    match v {
        JsonValue::Null => false,
        JsonValue::Str(s) => {
            let t = trim_str(s.as_str());
            !t.as_str().is_empty()
        },
        JsonValue::Array(a) => a.len() > 0,
        JsonValue::Object(o) => o.len() > 0,
        _ => true,
    }
}

/// Whether a parsed `auth.json` holds credentials (see `has_material`).
pub fn auth_value_has_material(v: &JsonValue) -> (r: bool)
    ensures
        r == has_material(v@),
{
    match v {
        JsonValue::Object(ms) => {
            let ghost mm = v@->Object_0;
            let mut i: usize = 0;
            while i < ms.len()
                invariant
                    i <= ms@.len(),
                    mm == JsonValue::Object(*ms)@->Object_0,
                    v@ == JsonModel::Object(mm),
                    mm.len() == ms@.len(),
                    forall|k: int| 0 <= k < i ==> !(mm[k].0 != "auth_mode"@ && is_material(mm[k].1)),
                decreases ms@.len() - i,
            {
                assert(mm[i as int] == (ms@[i as int].0@, ms@[i as int].1@));
                if !crate::text::str_eq(ms[i].0.as_str(), "auth_mode") && material_exec(&ms[i].1) {
                    assert(0 <= i < mm.len() && mm[i as int].0 != "auth_mode"@ && is_material(mm[i as int].1));
                    return true;
                }
                i = i + 1;
            }
            false
        },
        _ => false,
    }
}

/// Whether an `auth.json` holds credentials: `false` when the file is absent (`text` is
/// `None`); a file that does not parse is reported against `path`.
pub fn auth_has_material(path: &str, text: Option<String>) -> (r: Result<bool, CodexxError>)
    ensures
        match text {
            None => r == Ok::<bool, CodexxError>(false),
            Some(t) => match json_parse_spec(t@) {
                Some(m) => r == Ok::<bool, CodexxError>(has_material(m)),
                None => r matches Err(CodexxError::Json { path: p, .. }) && p@ == path@,
            },
        },
{
    match text {
        None => Ok(false),
        Some(t) => match json_parse(t.as_str()) {
            Ok(v) => Ok(auth_value_has_material(&v)),
            Err(e) => Err(CodexxError::Json { path: copy_str(path), source: e }),
        },
    }
}

/// The text shown in place of a secret.
pub open spec fn mask() -> Seq<char> {
    "••••••••"@
}

/// A member name that suggests a secret: it contains `key`, `token`, `secret` or `password`,
/// ignoring ASCII case.
pub open spec fn is_secret_name(k: Seq<char>) -> bool {
    let l = lower_seq(k);
    contains_seq(l, "key"@) || contains_seq(l, "token"@) || contains_seq(l, "secret"@) || contains_seq(
        l,
        "password"@,
    )
}

/// The redacted form of a member: a secret-named member holding a non-blank string shows the
/// mask instead.
pub open spec fn redact_member(m: (Seq<char>, JsonModel)) -> (Seq<char>, JsonModel) {
    if is_secret_name(m.0) && (m.1 matches JsonModel::Str(s) && trim(s).len() > 0) {
        (m.0, JsonModel::Str(mask()))
    } else {
        m
    }
}

/// The preview of `auth.json`: an object with its secrets masked; anything else as it is.
pub open spec fn redacted_spec(v: JsonModel) -> JsonModel {
    match v {
        JsonModel::Object(ms) => JsonModel::Object(ms.map_values(|m: (Seq<char>, JsonModel)| redact_member(m))),
        _ => v,
    }
}

fn secret_name_exec(k: &str) -> (r: bool)
    ensures
        r == is_secret_name(k@),
{
    let l = lower_chars(chars_of(k).as_slice());
    contains_exec(l.as_slice(), chars_of("key").as_slice()) || contains_exec(l.as_slice(), chars_of("token").as_slice())
        || contains_exec(l.as_slice(), chars_of("secret").as_slice()) || contains_exec(l.as_slice(), chars_of("password").as_slice())
}

/// Masks the secrets of a parsed `auth.json` (see `redacted_spec`).
pub fn redact_auth_value(v: JsonValue) -> (r: JsonValue)
    ensures
        r@ == redacted_spec(v@),
{
    match v {
        JsonValue::Object(ms) => {
            let ghost mm = JsonValue::Object(ms)@->Object_0;
            let mut rest = ms;
            let mut out: Vec<(String, JsonValue)> = Vec::new();
            let n = rest.len();
            let mut i: usize = 0;
            while rest.len() > 0
                invariant
                    i + rest@.len() == n,
                    mm.len() == n,
                    forall|k: int| 0 <= k < rest@.len() ==> mm[i + k] == (#[trigger] rest@[k].0@, rest@[k].1@),
                    JsonValue::Object(out)@->Object_0 == mm.take(i as int).map_values(
                        |m: (Seq<char>, JsonModel)| redact_member(m),
                    ),
                decreases rest@.len(),
            {
                let ghost rest_before = rest@;
                let (k, x) = rest.remove(0);
                assert(mm[i as int] == (k@, x@)) by {
                    assert(rest_before[0] == (k, x));
                }
                assert forall|j: int| 0 <= j < rest@.len() implies mm[i + 1 + j] == (#[trigger] rest@[j].0@, rest@[j].1@) by {
                    assert(rest@[j] == rest_before[j + 1]);
                }
                let secret = secret_name_exec(k.as_str());
                let blank_str = match &x {
                    JsonValue::Str(s) => {
                        let t = trim_str(s.as_str());
                        !t.as_str().is_empty()
                    },
                    _ => false,
                };
                let ghost before = JsonValue::Object(out)@->Object_0;
                let ghost kx = (k@, x@);
                assert(blank_str == (x@ matches JsonModel::Str(s) && trim(s).len() > 0));
                if secret && blank_str {
                    let masked = JsonValue::Str(copy_str("••••••••"));
                    assert(masked@ == JsonModel::Str(mask()));
                    assert(redact_member(kx) == (k@, masked@));
                    out.push((k, masked));
                } else {
                    assert(redact_member(kx) == kx);
                    out.push((k, x));
                }
                proof { reveal_strlit("••••••••"); }
                assert(JsonValue::Object(out)@->Object_0 =~= before.push(redact_member(mm[i as int])));
                assert(mm.take(i + 1) =~= mm.take(i as int).push(mm[i as int]));
                assert(mm.take(i + 1).map_values(|m: (Seq<char>, JsonModel)| redact_member(m)) =~= mm.take(
                    i as int,
                ).map_values(|m: (Seq<char>, JsonModel)| redact_member(m)).push(redact_member(mm[i as int])));
                i = i + 1;
            }
            assert(mm.take(n as int) =~= mm);
            JsonValue::Object(out)
        },
        other => other,
    }
}

/// The preview of `auth.json` for the main screen: `None` when the file is absent; a file that
/// does not parse is reported against `path`.
pub fn redacted_auth_preview(path: &str, text: Option<String>) -> (r: Result<Option<JsonValue>, CodexxError>)
    ensures
        match text {
            None => r matches Ok(None),
            Some(t) => match json_parse_spec(t@) {
                Some(m) => r matches Ok(Some(v)) && v@ == redacted_spec(m),
                None => r matches Err(CodexxError::Json { path: p, .. }) && p@ == path@,
            },
        },
{
    match text {
        None => Ok(None),
        Some(t) => match json_parse(t.as_str()) {
            Ok(v) => Ok(Some(redact_auth_value(v))),
            Err(e) => Err(CodexxError::Json { path: copy_str(path), source: e }),
        },
    }
}


/// An API key as given, trimmed, unless that leaves nothing.
pub open spec fn api_key_spec(k: Option<String>) -> Option<Seq<char>> {
    match k {
        Some(s) => if trim(s@).len() > 0 { Some(trim(s@)) } else { None },
        None => None,
    }
}

pub fn normalize_api_key(k: Option<String>) -> (r: Option<String>)
    ensures
        match r {
            Some(s) => api_key_spec(k) == Some(s@),
            None => api_key_spec(k) is None,
        },
{
    match k {
        Some(s) => {
            let t = trim_str(s.as_str());
            if t.as_str().is_empty() { None } else { Some(t) }
        },
        None => None,
    }
}

/// `auth.json` after storing an API key: the existing document when it parses as an object
/// (else an empty object), with `OPENAI_API_KEY` set.
pub open spec fn auth_with_key_spec(existing: Option<Seq<char>>, key: Seq<char>) -> JsonModel {
    let base = match existing {
        Some(t) => match json_parse_spec(t) {
            Some(JsonModel::Object(ms)) => ms,
            _ => Seq::empty(),
        },
        None => Seq::empty(),
    };
    JsonModel::Object(set_member(base, "OPENAI_API_KEY"@, JsonModel::Str(key)))
}

/// `auth.json` with `OPENAI_API_KEY` set (see `auth_with_key_spec`); `existing` is the file's
/// text, `None` when it is absent.
pub fn auth_with_api_key(existing: Option<String>, api_key: &str) -> (r: JsonValue)
    ensures
        r@ == auth_with_key_spec(opt_view(existing), api_key@),
{
    let mut members: Vec<(String, JsonValue)> = match existing {
        Some(t) => match json_parse(t.as_str()) {
            Ok(JsonValue::Object(ms)) => ms,
            _ => Vec::new(),
        },
        None => Vec::new(),
    };
    let ghost before = JsonValue::Object(members)@->Object_0;
    assert(before == match opt_view(existing) {
        Some(t) => match json_parse_spec(t) {
            Some(JsonModel::Object(ms)) => ms,
            _ => Seq::empty(),
        },
        None => Seq::<(Seq<char>, JsonModel)>::empty(),
    });
    proof { reveal_strlit("OPENAI_API_KEY"); }
    crate::sessions::set_member_in(&mut members, "OPENAI_API_KEY", JsonValue::Str(copy_str(api_key)));
    JsonValue::Object(members)
}

/// The text written for a JSON file: pretty-printed, with a final newline.
pub fn json_file_text(v: &JsonValue) -> (r: String)
    ensures
        r@ == json_pretty_spec(v@) + "\n"@,
{
    match json_to_pretty(v) {
        Ok(t) => crate::text::concat_str(t.as_str(), "\n"),
        Err(_) => {
            proof {
                assert(false);
            }
            String::new()
        },
    }
}

/// The official login to store: nothing for a blank input; otherwise the trimmed text must
/// parse (else a JSON error against `path`) as an object (else a refusal).
pub fn official_auth_value(path: &str, auth_json: Option<String>) -> (r: Result<Option<JsonValue>, CodexxError>)
    ensures
        match api_key_spec(auth_json) {
            None => r matches Ok(None),
            Some(t) => match json_parse_spec(t) {
                Some(m) => if m is Object {
                    r matches Ok(Some(v)) && v@ == m
                } else {
                    r matches Err(CodexxError::Config(msg)) && msg@ == "auth.json 必须是 JSON object"@
                },
                None => r matches Err(CodexxError::Json { path: p, .. }) && p@ == path@,
            },
        },
{
    match normalize_api_key(auth_json) {
        None => Ok(None),
        Some(t) => match json_parse(t.as_str()) {
            Ok(v) => match v {
                JsonValue::Object(_) => Ok(Some(v)),
                _ => Err(CodexxError::Config(copy_str("auth.json 必须是 JSON object"))),
            },
            Err(e) => Err(CodexxError::Json { path: copy_str(path), source: e }),
        },
    }
}

} // verus!
