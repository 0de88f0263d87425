//! Reading and editing Codex's `config.toml`: the active model and provider, the provider
//! tables, the instruction file, and the edits each command makes.

use vstd::prelude::*;
use crate::text::{concat_str, copy_str, opt_view, str_eq, strings_view, trim, trim_str};
use crate::error::CodexxError;
use crate::toml::{
    entry_index, kind_is, lookup, remove_entry, set_entry, sub_table, toml_entries,
    toml_error_message, toml_get, toml_get_in, toml_get_in2, toml_new, toml_parse,
    toml_parse_spec, toml_remove, toml_remove_in, toml_set, toml_set_in, toml_set_in2,
    toml_table_keys, TomlValue,
    update_sub, visible_keys, TomlItem, TomlKind,
};

verus! {

pub type Entries = Seq<(Seq<char>, TomlItem)>;

/// A top-level string setting, trimmed, when it is a non-blank string.
pub open spec fn str_value_spec(es: Entries, key: Seq<char>) -> Option<Seq<char>> {
    match lookup(es, key) {
        Some(TomlItem::Str(s)) => if trim(s).len() > 0 { Some(trim(s)) } else { None },
        _ => None,
    }
}

/// A top-level string setting (see `str_value_spec`).
pub fn string_value(doc: &toml_edit::DocumentMut, key: &str) -> (r: Option<String>)
    ensures
        match r {
            Some(s) => str_value_spec(toml_entries(*doc), key@) == Some(s@),
            None => str_value_spec(toml_entries(*doc), key@) is None,
        },
{
    match toml_get(doc, key) {
        TomlKind::Str(s) => {
            let t = trim_str(s.as_str());
            if t.as_str().is_empty() { None } else { Some(t) }
        },
        _ => None,
    }
}

/// A boolean item's value (`Item::as_bool`).
pub fn bool_from_item(item: &TomlKind) -> (r: Option<bool>)
    ensures
        r == match item {
            TomlKind::Bool(b) => Some(*b),
            _ => None,
        },
{
    match item {
        TomlKind::Bool(b) => Some(*b),
        _ => None,
    }
}

/// The document a config file's text holds: an empty one for blank text, else what
/// `toml_edit` parses; a parse error is reported against `path`.
pub open spec fn parse_config_spec(text: Seq<char>) -> Option<Entries> {
    if trim(text).len() == 0 {
        Some(Seq::empty())
    } else {
        toml_parse_spec(text)
    }
}

pub fn parse_toml_document(path: &str, text: &str) -> (r: Result<toml_edit::DocumentMut, CodexxError>)
    ensures
        match parse_config_spec(text@) {
            Some(es) => r matches Ok(d) && toml_entries(d) == es,
            None => r matches Err(CodexxError::Toml { path: p, .. }) && p@ == path@,
        },
{
    let t = trim_str(text);
    if t.as_str().is_empty() {
        return Ok(toml_new());
    }
    match toml_parse(text) {
        Ok(d) => Ok(d),
        Err(e) => Err(CodexxError::Toml { path: copy_str(path), message: toml_error_message(&e) }),
    }
}

/// A provider table as the main screen lists it.
#[derive(Clone, Debug)]
pub struct ProviderSummary {
    pub id: String,
    pub name: Option<String>,
    pub base_url: Option<String>,
    pub wire_api: Option<String>,
    pub requires_openai_auth: Option<bool>,
    pub is_current: bool,
}

pub open spec fn str_item(it: Option<TomlItem>) -> Option<Seq<char>> {
    match it {
        Some(TomlItem::Str(s)) => Some(s),
        _ => None,
    }
}

pub open spec fn bool_item(it: Option<TomlItem>) -> Option<bool> {
    match it {
        Some(TomlItem::Bool(b)) => Some(b),
        _ => None,
    }
}

/// The summary of the provider table `id` with entries `t`.
pub open spec fn summary_matches(p: ProviderSummary, id: Seq<char>, t: Entries, current: Option<Seq<char>>) -> bool {
    &&& p.id@ == id
    &&& opt_view(p.name) == str_item(lookup(t, "name"@))
    &&& opt_view(p.base_url) == str_item(lookup(t, "base_url"@))
    &&& opt_view(p.wire_api) == str_item(lookup(t, "wire_api"@))
    &&& p.requires_openai_auth == bool_item(lookup(t, "requires_openai_auth"@))
    &&& p.is_current == (current == Some(id))
}

/// The provider tables under `[model_providers]`, in order: for each key whose entry is a
/// table, that table.
pub open spec fn provider_tables(es: Entries) -> Seq<(Seq<char>, Entries)> {
    match sub_table(es, "model_providers"@) {
        Some(ps) => tables_among(ps, visible_keys(ps)),
        None => Seq::empty(),
    }
}

pub open spec fn tables_among(ps: Entries, keys: Seq<Seq<char>>) -> Seq<(Seq<char>, Entries)>
    decreases keys.len(),
{
    if keys.len() == 0 {
        Seq::empty()
    } else {
        let rest = tables_among(ps, keys.drop_last());
        match sub_table(ps, keys.last()) {
            Some(t) => rest.push((keys.last(), t)),
            None => rest,
        }
    }
}

fn str_of_kind(k: TomlKind) -> (r: Option<String>)
    ensures
        r == match k {
            TomlKind::Str(s) => Some(s),
            _ => None,
        },
{
    match k {
        TomlKind::Str(s) => Some(s),
        _ => None,
    }
}

/// The provider tables of a document with their summaries (`current` is the active
/// provider's id).
pub fn extract_providers(doc: &toml_edit::DocumentMut, current: Option<&str>) -> (r: Vec<ProviderSummary>)
    ensures
        r@.len() == provider_tables(toml_entries(*doc)).len(),
        forall|i: int| 0 <= i < r@.len() ==> summary_matches(
            #[trigger] r@[i],
            provider_tables(toml_entries(*doc))[i].0,
            provider_tables(toml_entries(*doc))[i].1,
            match current { Some(c) => Some(c@), None => None },
        ),
{
    proof {
        reveal_strlit("model_providers");
    }
    let keys = toml_table_keys(doc, "model_providers");
    let ghost es = toml_entries(*doc);
    let ghost cur = match current { Some(c) => Some(c@), None => None::<Seq<char>> };
    let ghost ps = match sub_table(es, "model_providers"@) { Some(ps) => ps, None => Seq::empty() };
    let ghost kv = strings_view(keys@);
    assert(sub_table(es, "model_providers"@) is None ==> kv =~= Seq::<Seq<char>>::empty());
    let mut out: Vec<ProviderSummary> = Vec::new();
    let mut i: usize = 0;
    while i < keys.len()
        invariant
            i <= keys@.len(),
            kv == strings_view(keys@),
            es == toml_entries(*doc),
            cur == match current { Some(c) => Some(c@), None => None::<Seq<char>> },
            sub_table(es, "model_providers"@) is Some ==> ps == sub_table(es, "model_providers"@)->0,
            provider_tables(es) == (if sub_table(es, "model_providers"@) is Some { tables_among(ps, kv) } else { Seq::empty() }),
            sub_table(es, "model_providers"@) is None ==> kv.len() == 0,
            out@.len() == tables_among(ps, kv.take(i as int)).len(),
            forall|j: int| 0 <= j < out@.len() ==> summary_matches(
                #[trigger] out@[j],
                tables_among(ps, kv.take(i as int))[j].0,
                tables_among(ps, kv.take(i as int))[j].1,
                cur,
            ),
        decreases keys@.len() - i,
    {
        let key = keys[i].as_str();
        assert(kv.take(i + 1).drop_last() =~= kv.take(i as int));
        assert(kv.take(i + 1).last() == key@);
        match toml_get_in(doc, "model_providers", key) {
            TomlKind::Table => {
                proof {
                    reveal_strlit("name");
                    reveal_strlit("base_url");
                    reveal_strlit("wire_api");
                    reveal_strlit("requires_openai_auth");
                }
                let name = str_of_kind(toml_get_in2(doc, "model_providers", key, "name"));
                let base_url = str_of_kind(toml_get_in2(doc, "model_providers", key, "base_url"));
                let wire_api = str_of_kind(toml_get_in2(doc, "model_providers", key, "wire_api"));
                let auth = bool_from_item(&toml_get_in2(doc, "model_providers", key, "requires_openai_auth"));
                let is_current = match current {
                    Some(c) => str_eq(c, key),
                    None => false,
                };
                let ghost t = sub_table(ps, key@)->0;
                assert(tables_among(ps, kv.take(i + 1)) == tables_among(ps, kv.take(i as int)).push((key@, t)));
                let ghost before = out@;
                out.push(ProviderSummary {
                    id: copy_str(key),
                    name,
                    base_url,
                    wire_api,
                    requires_openai_auth: auth,
                    is_current,
                });
                assert forall|j: int| 0 <= j < out@.len() implies summary_matches(
                    #[trigger] out@[j],
                    tables_among(ps, kv.take(i + 1))[j].0,
                    tables_among(ps, kv.take(i + 1))[j].1,
                    cur,
                ) by {
                    if j < before.len() {
                        assert(out@[j] == before[j]);
                    } else {
                        assert(sub_table(es, "model_providers"@) is Some);
                        assert(opt_view(out@[j].name) == str_item(lookup(t, "name"@)));
                        assert(opt_view(out@[j].base_url) == str_item(lookup(t, "base_url"@)));
                        assert(opt_view(out@[j].wire_api) == str_item(lookup(t, "wire_api"@)));
                        assert(out@[j].requires_openai_auth == bool_item(lookup(t, "requires_openai_auth"@)));
                        assert(out@[j].is_current == (cur == Some(key@)));
                        assert(out@[j].id@ == key@);
                    }
                }
            },
            _ => {
                assert(sub_table(ps, key@) is None);
                assert(tables_among(ps, kv.take(i + 1)) == tables_among(ps, kv.take(i as int)));
            },
        }
        i = i + 1;
    }
    assert(kv.take(keys@.len() as int) =~= kv);
    out
}


fn is_absent(k: &TomlKind) -> (r: bool)
    ensures
        r == (*k is Absent),
{
    match k {
        TomlKind::Absent => true,
        _ => false,
    }
}

/// The defaults a provider switch adds when they are not set: `model_reasoning_effort =
/// "high"` and `disable_response_storage = true`.
pub open spec fn defaults_spec(es: Entries) -> Entries {
    let a = if lookup(es, "model_reasoning_effort"@) is None {
        set_entry(es, "model_reasoning_effort"@, TomlItem::Str("high"@))
    } else {
        es
    };
    if lookup(a, "disable_response_storage"@) is None {
        set_entry(a, "disable_response_storage"@, TomlItem::Bool(true))
    } else {
        a
    }
}

pub fn set_top_level_defaults(doc: &mut toml_edit::DocumentMut)
    ensures
        toml_entries(*final(doc)) == defaults_spec(toml_entries(*old(doc))),
{
    if is_absent(&toml_get(doc, "model_reasoning_effort")) {
        toml_set(doc, "model_reasoning_effort", TomlValue::Str("high"));
    }
    if is_absent(&toml_get(doc, "disable_response_storage")) {
        toml_set(doc, "disable_response_storage", TomlValue::Bool(true));
    }
}

/// The message for an entry that should be a table but is not.
pub open spec fn not_table_msg(key: Seq<char>) -> Seq<char> {
    key + " 不是 TOML table"@
}

/// `ensure_table` on the root: an absent entry becomes an empty table; an entry that is not
/// a table is refused.
pub open spec fn ensure_spec(es: Entries, key: Seq<char>) -> Option<Entries> {
    let a = if lookup(es, key) is None { set_entry(es, key, TomlItem::Table(Seq::empty())) } else { es };
    if sub_table(a, key) is Some { Some(a) } else { None }
}

/// Makes the root entry `key` a table when it is absent; refuses an entry that is not one.
pub fn ensure_table(doc: &mut toml_edit::DocumentMut, key: &str) -> (r: Result<(), CodexxError>)
    ensures
        match ensure_spec(toml_entries(*old(doc)), key@) {
            Some(es) => r is Ok && toml_entries(*final(doc)) == es,
            None => r matches Err(CodexxError::Config(m)) && m@ == not_table_msg(key@),
        },
{
    if is_absent(&toml_get(doc, key)) {
        toml_set(doc, key, TomlValue::Table);
    }
    match toml_get(doc, key) {
        TomlKind::Table => Ok(()),
        _ => Err(CodexxError::Config(concat_str(key, " 不是 TOML table"))),
    }
}

/// `ensure_table` inside the root table `t`.
pub open spec fn ensure_in_spec(es: Entries, t: Seq<char>, key: Seq<char>) -> Option<Entries> {
    match sub_table(es, t) {
        Some(mid) => match ensure_spec(mid, key) {
            Some(mid2) => Some(update_sub(es, t, mid2)),
            None => None,
        },
        None => None,
    }
}

pub fn ensure_table_in(doc: &mut toml_edit::DocumentMut, t: &str, key: &str) -> (r: Result<(), CodexxError>)
    requires
        sub_table(toml_entries(*old(doc)), t@) is Some,
    ensures
        match ensure_in_spec(toml_entries(*old(doc)), t@, key@) {
            Some(es) => r is Ok && toml_entries(*final(doc)) == es,
            None => r matches Err(CodexxError::Config(m)) && m@ == not_table_msg(key@),
        },
{
    let ghost es = toml_entries(*doc);
    let ghost mid = sub_table(es, t@)->0;
    if is_absent(&toml_get_in(doc, t, key)) {
        toml_set_in(doc, t, key, TomlValue::Table);
    }
    proof {
        lemma_update_sub_same(es, t@, mid);
    }
    assert(sub_table(toml_entries(*doc), t@) == Some(if lookup(mid, key@) is None {
        set_entry(mid, key@, TomlItem::Table(Seq::empty()))
    } else {
        mid
    })) by {
        if lookup(mid, key@) is None {
            lemma_update_sub_lookup(es, t@, set_entry(mid, key@, TomlItem::Table(Seq::empty())));
        }
    }
    match toml_get_in(doc, t, key) {
        TomlKind::Table => Ok(()),
        _ => Err(CodexxError::Config(concat_str(key, " 不是 TOML table"))),
    }
}

/// Where `entry_index` finds a key: within bounds, at an entry with that key, the first
/// such entry; and when it finds none, no entry below `n` has the key.
pub proof fn lemma_entry_index_bounds(es: Entries, key: Seq<char>, n: int)
    ensures
        entry_index(es, key, n) matches Some(i) ==> 0 <= i < n && i < es.len() && es[i].0 == key,
        entry_index(es, key, n) matches Some(i) ==> forall|k: int| 0 <= k < i ==> es[k].0 != key,
        entry_index(es, key, n) is None ==> forall|k: int| 0 <= k < n && k < es.len() ==> es[k].0 != key,
    decreases n,
{
    if n > 0 {
        lemma_entry_index_bounds(es, key, n - 1);
    }
}

/// The first entry with a key is where `entry_index` finds it.
pub proof fn lemma_entry_index_first(es: Entries, key: Seq<char>, i: int, n: int)
    requires
        0 <= i < n <= es.len(),
        es[i].0 == key,
        forall|k: int| 0 <= k < i ==> es[k].0 != key,
    ensures
        entry_index(es, key, n) == Some(i),
    decreases n,
{
    if n > i + 1 {
        lemma_entry_index_first(es, key, i, n - 1);
    } else {
        lemma_entry_index_bounds(es, key, i);
    }
}

/// Where a key is found depends only on the keys.
pub proof fn lemma_entry_index_keys(a: Entries, b: Entries, key: Seq<char>, n: int)
    requires
        a.len() == b.len(),
        forall|m: int| 0 <= m < a.len() ==> a[m].0 == b[m].0,
    ensures
        entry_index(a, key, n) == entry_index(b, key, n),
    decreases n,
{
    if n > 0 {
        lemma_entry_index_keys(a, b, key, n - 1);
    }
}

/// Replacing a slot's item keeps where each key is found.
pub proof fn lemma_entry_index_update(es: Entries, i: int, key: Seq<char>, it: TomlItem, k: Seq<char>)
    requires
        0 <= i < es.len(),
        es[i].0 == key,
    ensures
        entry_index(es.update(i, (key, it)), k, es.len() as int) == entry_index(es, k, es.len() as int),
{
    lemma_entry_index_keys(es.update(i, (key, it)), es, k, es.len() as int);
}

/// After `update_sub`, the table at `t` holds the new entries.
pub proof fn lemma_update_sub_lookup(es: Entries, t: Seq<char>, inner: Entries)
    requires
        sub_table(es, t) is Some,
    ensures
        sub_table(update_sub(es, t, inner), t) == Some(inner),
{
    let i = entry_index(es, t, es.len() as int)->0;
    lemma_entry_index_bounds(es, t, es.len() as int);
    lemma_entry_index_update(es, i, t, TomlItem::Table(inner), t);
}

/// Writing a table back unchanged changes nothing.
pub proof fn lemma_update_sub_same(es: Entries, t: Seq<char>, inner: Entries)
    requires
        sub_table(es, t) == Some(inner),
    ensures
        update_sub(es, t, inner) == es,
{
    let i = entry_index(es, t, es.len() as int)->0;
    lemma_entry_index_bounds(es, t, es.len() as int);
    assert(es.update(i, (t, TomlItem::Table(inner))) =~= es);
}


/// `table[key] = item` in the table `t2` inside the root table `t1`, when both are tables.
pub open spec fn set_in2(es: Entries, t1: Seq<char>, t2: Seq<char>, key: Seq<char>, it: TomlItem) -> Entries {
    match sub_table(es, t1) {
        Some(mid) => match sub_table(mid, t2) {
            Some(inner) => update_sub(es, t1, update_sub(mid, t2, set_entry(inner, key, it))),
            None => es,
        },
        None => es,
    }
}

/// The edit a switch to a custom provider makes: `model_provider = "custom"`, the model, the
/// defaults, and `[model_providers.custom]` with the name, base URL, wire API and auth flag.
/// `None` when `model_providers` or `custom` exists but is not a table.
pub open spec fn switch_spec(
    es: Entries,
    name: Seq<char>,
    base_url: Seq<char>,
    model: Seq<char>,
    wire_api: Seq<char>,
    auth: bool,
) -> Option<Entries> {
    let a = defaults_spec(
        set_entry(set_entry(es, "model_provider"@, TomlItem::Str("custom"@)), "model"@, TomlItem::Str(model)),
    );
    match ensure_spec(a, "model_providers"@) {
        Some(b) => match ensure_in_spec(b, "model_providers"@, "custom"@) {
            Some(c) => {
                let mp = "model_providers"@;
                let cu = "custom"@;
                Some(
                    set_in2(
                        set_in2(
                            set_in2(set_in2(c, mp, cu, "name"@, TomlItem::Str(name)), mp, cu, "base_url"@, TomlItem::Str(base_url)),
                            mp,
                            cu,
                            "wire_api"@,
                            TomlItem::Str(wire_api),
                        ),
                        mp,
                        cu,
                        "requires_openai_auth"@,
                        TomlItem::Bool(auth),
                    ),
                )
            },
            None => None,
        },
        None => None,
    }
}

/// The message a refused switch gives: `model_providers` is named when it is not a table,
/// else its `custom` entry.
pub open spec fn switch_refusal(es: Entries, model: Seq<char>) -> Seq<char> {
    let a = defaults_spec(
        set_entry(set_entry(es, "model_provider"@, TomlItem::Str("custom"@)), "model"@, TomlItem::Str(model)),
    );
    if ensure_spec(a, "model_providers"@) is None {
        not_table_msg("model_providers"@)
    } else {
        not_table_msg("custom"@)
    }
}

/// The wire API a switch writes: the one given, else `responses`.
pub open spec fn wire_api_or_default(w: Option<String>) -> Seq<char> {
    match w {
        Some(s) => s@,
        None => "responses"@,
    }
}

/// Points `config.toml` at a custom provider (see `switch_spec`); on refusal the error names
/// the entry that is not a table.
pub fn switch_provider_config(
    doc: &mut toml_edit::DocumentMut,
    provider_name: &str,
    base_url: &str,
    model: &str,
    wire_api: Option<String>,
    requires_openai_auth: Option<bool>,
) -> (r: Result<(), CodexxError>)
    ensures
        match switch_spec(
            toml_entries(*old(doc)),
            provider_name@,
            base_url@,
            model@,
            wire_api_or_default(wire_api),
            match requires_openai_auth { Some(b) => b, None => true },
        ) {
            Some(es) => r is Ok && toml_entries(*final(doc)) == es,
            None => r matches Err(CodexxError::Config(m)) && m@ == switch_refusal(toml_entries(*old(doc)), model@),
        },
{
    toml_set(doc, "model_provider", TomlValue::Str("custom"));
    toml_set(doc, "model", TomlValue::Str(model));
    set_top_level_defaults(doc);
    let ghost a = toml_entries(*doc);
    ensure_table(doc, "model_providers")?;
    ensure_table_in(doc, "model_providers", "custom")?;
    let wire = match wire_api {
        Some(w) => w,
        None => copy_str("responses"),
    };
    let auth = match requires_openai_auth {
        Some(b) => b,
        None => true,
    };
    toml_set_in2(doc, "model_providers", "custom", "name", TomlValue::Str(provider_name));
    toml_set_in2(doc, "model_providers", "custom", "base_url", TomlValue::Str(base_url));
    toml_set_in2(doc, "model_providers", "custom", "wire_api", TomlValue::Str(wire.as_str()));
    toml_set_in2(doc, "model_providers", "custom", "requires_openai_auth", TomlValue::Bool(auth));
    Ok(())
}

/// The edit a switch to the official provider makes: `model_provider` goes; the `custom`
/// provider table goes, and `model_providers` with it when that leaves it empty; a non-blank
/// model (trimmed) is set.
pub open spec fn official_spec(es: Entries, model: Option<Seq<char>>) -> Entries {
    let a = remove_entry(es, "model_provider"@);
    let b = match sub_table(a, "model_providers"@) {
        Some(ps) => {
            let ps2 = remove_entry(ps, "custom"@);
            let c = update_sub(a, "model_providers"@, ps2);
            if visible_keys(ps2).len() == 0 { remove_entry(c, "model_providers"@) } else { c }
        },
        None => a,
    };
    match model {
        Some(m) => if trim(m).len() > 0 { set_entry(b, "model"@, TomlItem::Str(trim(m))) } else { b },
        None => b,
    }
}

pub fn official_config_edit(doc: &mut toml_edit::DocumentMut, model: Option<String>)
    ensures
        toml_entries(*final(doc)) == official_spec(toml_entries(*old(doc)), opt_view(model)),
{
    toml_remove(doc, "model_provider");
    let ghost a = toml_entries(*doc);
    let is_table = match toml_get(doc, "model_providers") {
        TomlKind::Table => true,
        _ => false,
    };
    if is_table {
        let ghost ps = sub_table(a, "model_providers"@)->0;
        toml_remove_in(doc, "model_providers", "custom");
        proof {
            lemma_update_sub_lookup(a, "model_providers"@, remove_entry(ps, "custom"@));
        }
        let keys = toml_table_keys(doc, "model_providers");
        if keys.len() == 0 {
            toml_remove(doc, "model_providers");
        }
    }
    match model {
        Some(m) => {
            let t = trim_str(m.as_str());
            if !t.as_str().is_empty() {
                toml_set(doc, "model", TomlValue::Str(t.as_str()));
            }
        },
        None => {},
    }
}

/// The edit that enables an instruction file: a default model (`gpt-5.5`) when none is set,
/// and `model_instructions_file` pointing at the file.
pub open spec fn instruction_spec(es: Entries, relative: Seq<char>) -> Entries {
    let a = if lookup(es, "model"@) is None { set_entry(es, "model"@, TomlItem::Str("gpt-5.5"@)) } else { es };
    set_entry(a, "model_instructions_file"@, TomlItem::Str(relative))
}

pub fn instruction_config_edit(doc: &mut toml_edit::DocumentMut, relative: &str)
    ensures
        toml_entries(*final(doc)) == instruction_spec(toml_entries(*old(doc)), relative@),
{
    if is_absent(&toml_get(doc, "model")) {
        toml_set(doc, "model", TomlValue::Str("gpt-5.5"));
    }
    toml_set(doc, "model_instructions_file", TomlValue::Str(relative));
}

/// The edit that disables the instruction file: `model_instructions_file` goes when it is a
/// non-blank string; the result tells whether it did.
pub fn disable_instruction_edit(doc: &mut toml_edit::DocumentMut) -> (removed: bool)
    ensures
        removed == (str_value_spec(toml_entries(*old(doc)), "model_instructions_file"@) is Some),
        toml_entries(*final(doc)) == if removed {
            remove_entry(toml_entries(*old(doc)), "model_instructions_file"@)
        } else {
            toml_entries(*old(doc))
        },
{
    let current = string_value(doc, "model_instructions_file");
    let removed = current.is_some();
    if removed {
        toml_remove(doc, "model_instructions_file");
    }
    removed
}

/// A provider's TOML must set a model.
pub fn require_model(doc: &toml_edit::DocumentMut) -> (r: Result<(), CodexxError>)
    ensures
        match r {
            Ok(()) => str_value_spec(toml_entries(*doc), "model"@) is Some,
            Err(e) => str_value_spec(toml_entries(*doc), "model"@) is None && (e matches CodexxError::Config(m)
                && m@ == "config.toml 必须包含 model"@),
        },
{
    if string_value(doc, "model").is_none() {
        return Err(CodexxError::Config(copy_str("config.toml 必须包含 model")));
    }
    Ok(())
}

/// The provider sessions should point at: the one named (trimmed) when not blank, else the
/// config's `model_provider`, else `openai`.
pub open spec fn current_provider_spec(explicit: Option<Seq<char>>, es: Entries) -> Seq<char> {
    match explicit {
        Some(e) if trim(e).len() > 0 => trim(e),
        _ => match str_value_spec(es, "model_provider"@) {
            Some(p) => p,
            None => "openai"@,
        },
    }
}

pub fn current_model_provider(config_path: &str, config_text: &str, explicit: Option<String>) -> (r: Result<
    String,
    CodexxError,
>)
    ensures
        match explicit {
            Some(e) if trim(e@).len() > 0 => r matches Ok(p) && p@ == trim(e@),
            _ => match parse_config_spec(config_text@) {
                Some(es) => r matches Ok(p) && p@ == current_provider_spec(None, es),
                None => r matches Err(CodexxError::Toml { path, .. }) && path@ == config_path@,
            },
        },
{
    if let Some(e) = &explicit {
        let t = trim_str(e.as_str());
        if !t.as_str().is_empty() {
            return Ok(t);
        }
    }
    let doc = parse_toml_document(config_path, config_text)?;
    match string_value(&doc, "model_provider") {
        Some(p) => Ok(p),
        None => Ok(copy_str("openai")),
    }
}

} // verus!
