//! Saved providers and prompts: what a save stores, how rows read back, and lookups by id.

use vstd::prelude::*;
use crate::text::{chars_of, concat_str, copy_str, opt_view, str_eq, string_of, trim, trim_end_char, trim_end_char_chars, trim_str};
use crate::error::CodexxError;
use crate::names::{prompt_filename_spec, sanitize_id_at, sanitize_id_spec, normalize_prompt_filename};

verus! {

/// A provider kept in the app's database.
#[derive(Clone, Debug)]
pub struct SavedProvider {
    pub id: String,
    pub provider_name: String,
    pub base_url: String,
    pub model: String,
    pub api_key: Option<String>,
    pub wire_api: String,
    pub requires_openai_auth: bool,
}

/// A prompt kept in the app's database.
#[derive(Clone, Debug)]
pub struct SavedPrompt {
    pub id: String,
    pub title: String,
    pub filename: String,
    pub content: String,
}

/// A base URL: trimmed, without trailing slashes.
pub open spec fn base_url_spec(s: Seq<char>) -> Seq<char> {
    trim_end_char(trim(s), '/')
}

pub fn normalize_base_url(s: &str) -> (r: String)
    ensures
        r@ == base_url_spec(s@),
{
    let t = chars_of(s);
    let u = crate::text::trim_chars(t.as_slice());
    let v = trim_end_char_chars(u.as_slice(), '/');
    string_of(v.as_slice())
}

/// The provider a save stores: every field trimmed, the base URL without trailing slashes,
/// a blank API key dropped, a blank wire API replaced by `responses`.
pub open spec fn normalized_provider(p: SavedProvider, q: SavedProvider) -> bool {
    &&& q.id@ == trim(p.id@)
    &&& q.provider_name@ == trim(p.provider_name@)
    &&& q.base_url@ == base_url_spec(p.base_url@)
    &&& q.model@ == trim(p.model@)
    &&& opt_view(q.api_key) == match p.api_key {
        Some(k) => if trim(k@).len() > 0 { Some(trim(k@)) } else { None },
        None => None,
    }
    &&& q.wire_api@ == if trim(p.wire_api@).len() == 0 { "responses"@ } else { trim(p.wire_api@) }
    &&& q.requires_openai_auth == p.requires_openai_auth
}

/// Why a save is refused: the first of id, name, base URL, model that is empty after
/// normalising.
pub open spec fn provider_refusal(q: SavedProvider) -> Option<Seq<char>> {
    if q.id@.len() == 0 {
        Some("provider id 不能为空"@)
    } else if q.provider_name@.len() == 0 {
        Some("供应商名称不能为空"@)
    } else if q.base_url@.len() == 0 {
        Some("base_url 不能为空"@)
    } else if q.model@.len() == 0 {
        Some("model 不能为空"@)
    } else {
        None
    }
}

/// Normalises a provider before it is saved and refuses an incomplete one.
pub fn normalize_saved_provider(p: SavedProvider) -> (r: Result<SavedProvider, CodexxError>)
    ensures
        exists|q: SavedProvider| normalized_provider(p, q) && match provider_refusal(q) {
            Some(m) => r matches Err(CodexxError::Config(x)) && x@ == m,
            None => r matches Ok(s) && s == q,
        },
{
    let wire = trim_str(p.wire_api.as_str());
    let q = SavedProvider {
        id: trim_str(p.id.as_str()),
        provider_name: trim_str(p.provider_name.as_str()),
        base_url: normalize_base_url(p.base_url.as_str()),
        model: trim_str(p.model.as_str()),
        api_key: crate::auth::normalize_api_key(p.api_key),
        wire_api: if wire.as_str().is_empty() { copy_str("responses") } else { wire },
        requires_openai_auth: p.requires_openai_auth,
    };
    assert(normalized_provider(p, q));
    if q.id.as_str().is_empty() {
        return Err(CodexxError::Config(copy_str("provider id 不能为空")));
    }
    if q.provider_name.as_str().is_empty() {
        return Err(CodexxError::Config(copy_str("供应商名称不能为空")));
    }
    if q.base_url.as_str().is_empty() {
        return Err(CodexxError::Config(copy_str("base_url 不能为空")));
    }
    if q.model.as_str().is_empty() {
        return Err(CodexxError::Config(copy_str("model 不能为空")));
    }
    Ok(q)
}

/// A provider read back from a database row; the auth flag is stored as an integer.
pub fn provider_from_row(
    id: String,
    provider_name: String,
    base_url: String,
    model: String,
    api_key: Option<String>,
    wire_api: String,
    requires_openai_auth: i64,
) -> (r: SavedProvider)
    ensures
        r.id == id,
        r.provider_name == provider_name,
        r.base_url == base_url,
        r.model == model,
        r.api_key == api_key,
        r.wire_api == wire_api,
        r.requires_openai_auth == (requires_openai_auth != 0),
{
    SavedProvider {
        id,
        provider_name,
        base_url,
        model,
        api_key,
        wire_api,
        requires_openai_auth: requires_openai_auth != 0,
    }
}

/// The index of the first provider with id `id`.
pub open spec fn first_provider(list: Seq<SavedProvider>, id: Seq<char>, n: int) -> Option<int>
    decreases n,
{
    if n <= 0 {
        None
    } else if first_provider(list, id, n - 1) is Some {
        first_provider(list, id, n - 1)
    } else if n - 1 < list.len() && list[n - 1].id@ == id {
        Some(n - 1)
    } else {
        None
    }
}

proof fn lemma_first_provider_stable(list: Seq<SavedProvider>, id: Seq<char>, m: int, n: int)
    requires
        m <= n,
        first_provider(list, id, m) is Some,
    ensures
        first_provider(list, id, n) == first_provider(list, id, m),
    decreases n - m,
{
    if m < n {
        lemma_first_provider_stable(list, id, m, n - 1);
    }
}

/// The provider a save returns: the first stored one with its id, re-read so that what the
/// database kept is what the caller sees.
pub fn find_saved_provider(list: Vec<SavedProvider>, id: &str) -> (r: Result<SavedProvider, CodexxError>)
    ensures
        match first_provider(list@, id@, list@.len() as int) {
            Some(i) => r matches Ok(p) && p == list@[i],
            None => r matches Err(CodexxError::Database(m)) && m@ == "provider saved but not found"@,
        },
{
    let ghost all = list@;
    let mut rest = list;
    let mut i: usize = 0;
    let n = rest.len();
    while rest.len() > 0
        invariant
            i + rest@.len() == n,
            n == all.len(),
            all == list@,
            rest@ == all.subrange(i as int, n as int),
            first_provider(all, id@, i as int) is None,
        decreases rest@.len(),
    {
        let p = rest.remove(0);
        assert(p == all[i as int]);
        assert(rest@ =~= all.subrange(i + 1, n as int));
        if str_eq(p.id.as_str(), id) {
            assert(first_provider(all, id@, i + 1) == Some(i as int));
            proof { lemma_first_provider_stable(all, id@, i + 1, n as int); }
            return Ok(p);
        }
        i = i + 1;
    }
    Err(CodexxError::Database(copy_str("provider saved but not found")))
}

/// The prompt a save stores: title and content trimmed and required; the id from the given
/// id (or, when that is blank, the title) through `sanitize_id` at the clock reading
/// `now_ms`; the file name through `normalize_prompt_filename` with the id as fallback.
pub open spec fn prompt_spec(p: SavedPrompt, now_ms: int) -> Result<(Seq<char>, Seq<char>, Seq<char>, Seq<char>), Seq<char>> {
    let title = trim(p.title@);
    let content = trim(p.content@);
    if title.len() == 0 {
        Err("提示词名称不能为空"@)
    } else if content.len() == 0 {
        Err("提示词内容不能为空"@)
    } else {
        let id = if trim(p.id@).len() == 0 { sanitize_id_spec(title, now_ms) } else { sanitize_id_spec(p.id@, now_ms) };
        Ok((id, title, prompt_filename_spec(p.filename@, id), content))
    }
}

pub fn prepare_prompt(p: SavedPrompt, now_ms: i64) -> (r: Result<SavedPrompt, CodexxError>)
    ensures
        match prompt_spec(p, now_ms as int) {
            Ok((id, title, filename, content)) => r matches Ok(q) && q.id@ == id && q.title@ == title
                && q.filename@ == filename && q.content@ == content,
            Err(m) => r matches Err(CodexxError::Config(x)) && x@ == m,
        },
{
    let title = trim_str(p.title.as_str());
    if title.as_str().is_empty() {
        return Err(CodexxError::Config(copy_str("提示词名称不能为空")));
    }
    let content = trim_str(p.content.as_str());
    if content.as_str().is_empty() {
        return Err(CodexxError::Config(copy_str("提示词内容不能为空")));
    }
    let pid = trim_str(p.id.as_str());
    let id = if pid.as_str().is_empty() {
        sanitize_id_at(title.as_str(), now_ms)
    } else {
        sanitize_id_at(p.id.as_str(), now_ms)
    };
    let filename = normalize_prompt_filename(p.filename.as_str(), id.as_str());
    Ok(SavedPrompt { id, title, filename, content })
}

/// The prompt a save stores, with the id's clock fallback read now (see `prompt_spec`).
pub fn normalize_prompt(p: SavedPrompt) -> (r: Result<SavedPrompt, CodexxError>)
    ensures
        exists|now: i64| match #[trigger] prompt_spec(p, now as int) {
            Ok((id, title, filename, content)) => r matches Ok(q) && q.id@ == id && q.title@ == title
                && q.filename@ == filename && q.content@ == content,
            Err(m) => r matches Err(CodexxError::Config(x)) && x@ == m,
        },
{
    let now = crate::names::now_millis();
    let r = prepare_prompt(p, now);
    assert(match prompt_spec(p, now as int) {
        Ok((id, title, filename, content)) => r matches Ok(q) && q.id@ == id && q.title@ == title
            && q.filename@ == filename && q.content@ == content,
        Err(m) => r matches Err(CodexxError::Config(x)) && x@ == m,
    });
    r
}

/// The index of the first prompt with id `id`.
pub open spec fn first_prompt(list: Seq<SavedPrompt>, id: Seq<char>, n: int) -> Option<int>
    decreases n,
{
    if n <= 0 {
        None
    } else if first_prompt(list, id, n - 1) is Some {
        first_prompt(list, id, n - 1)
    } else if n - 1 < list.len() && list[n - 1].id@ == id {
        Some(n - 1)
    } else {
        None
    }
}

proof fn lemma_first_prompt_stable(list: Seq<SavedPrompt>, id: Seq<char>, m: int, n: int)
    requires
        m <= n,
        first_prompt(list, id, m) is Some,
    ensures
        first_prompt(list, id, n) == first_prompt(list, id, m),
    decreases n - m,
{
    if m < n {
        lemma_first_prompt_stable(list, id, m, n - 1);
    }
}

fn find_prompt(list: Vec<SavedPrompt>, id: &str) -> (r: Option<SavedPrompt>)
    ensures
        match first_prompt(list@, id@, list@.len() as int) {
            Some(i) => r == Some(list@[i]),
            None => r is None,
        },
{
    let ghost all = list@;
    let mut rest = list;
    let mut i: usize = 0;
    let n = rest.len();
    while rest.len() > 0
        invariant
            i + rest@.len() == n,
            n == all.len(),
            all == list@,
            rest@ == all.subrange(i as int, n as int),
            first_prompt(all, id@, i as int) is None,
        decreases rest@.len(),
    {
        let p = rest.remove(0);
        assert(p == all[i as int]);
        assert(rest@ =~= all.subrange(i + 1, n as int));
        if str_eq(p.id.as_str(), id) {
            assert(first_prompt(all, id@, i + 1) == Some(i as int));
            proof { lemma_first_prompt_stable(all, id@, i + 1, n as int); }
            return Some(p);
        }
        i = i + 1;
    }
    None
}

/// The saved prompt with id `id` among `prompts` (as listed, newest first), or a refusal
/// naming the id.
pub fn get_saved_prompt_inner(prompts: Vec<SavedPrompt>, id: &str) -> (r: Result<SavedPrompt, CodexxError>)
    ensures
        match first_prompt(prompts@, id@, prompts@.len() as int) {
            Some(i) => r matches Ok(p) && p == prompts@[i],
            None => r matches Err(CodexxError::Config(m)) && m@ == "提示词不存在: "@ + id@,
        },
{
    match find_prompt(prompts, id) {
        Some(p) => Ok(p),
        None => Err(CodexxError::Config(concat_str("提示词不存在: ", id))),
    }
}

/// The prompt a save returns: the stored one with its id.
pub fn find_saved_prompt(prompts: Vec<SavedPrompt>, id: &str) -> (r: Result<SavedPrompt, CodexxError>)
    ensures
        match first_prompt(prompts@, id@, prompts@.len() as int) {
            Some(i) => r matches Ok(p) && p == prompts@[i],
            None => r matches Err(CodexxError::Database(m)) && m@ == "prompt saved but not found"@,
        },
{
    match find_prompt(prompts, id) {
        Some(p) => Ok(p),
        None => Err(CodexxError::Database(copy_str("prompt saved but not found"))),
    }
}

} // verus!
