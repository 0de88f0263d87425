//! What holds across the library's operations: reading back what an edit wrote, what a dry
//! run leaves alone, and the shapes of the names it makes.

use vstd::prelude::*;
use crate::config::{
    official_spec, defaults_spec, ensure_in_spec, ensure_spec, instruction_spec, lemma_entry_index_bounds,
    lemma_entry_index_keys, lemma_update_sub_lookup, set_in2, str_value_spec, switch_spec, Entries,
};
use crate::text::{ends_with, is_ws, lower, lower_seq, trim, trim_char, trim_end, trim_end_char, trim_end_str, trim_start, trim_start_char};
use crate::names::{decimal, digits, prompt_filename_spec, sanitize_id_spec, slug, slug_keeps, slug_scan, slug_step};
use crate::sync::{dedup_from, insert_pos, key_lt, merged_sessions, sort_newest_first, SessionPreview};
use crate::auth::{auth_with_key_spec, mask, redact_member, redacted_spec};
use crate::json::{lemma_member_index_bounds, member_index, model_get, set_member, str_member, JsonModel};
use crate::sessions::{clean_segments, ending_of, file_scan_matches, lemma_clean_scan, lemma_seg_len, line_of, line_step, log_scan_start, scan_segments, seg_len, LogScan, RolloutFileScan};
use crate::backups::{backup_pos, sort_backups_spec, str_lt, BackupEntry};
use crate::paths::{all_portable, candidates_match, dedup, dedup_steps, may_be_same_path, portable_plain_path, pushed_unless_listed, same_path, sources_hold};
use crate::toml::{entry_index, lookup, remove_entry, set_entry, sub_table, update_sub, TomlItem};

verus! {

proof fn lemma_entry_index_push_other(es: Entries, key: Seq<char>, it: TomlItem, k: Seq<char>, n: int)
    requires
        k != key,
        n <= es.len(),
    ensures
        entry_index(es.push((key, it)), k, n) == entry_index(es, k, n),
    decreases n,
{
    if n > 0 {
        lemma_entry_index_push_other(es, key, it, k, n - 1);
    }
}

proof fn lemma_entry_index_prefix(es: Entries, extra: Entries, k: Seq<char>, n: int)
    requires
        n <= es.len(),
    ensures
        entry_index(es + extra, k, n) == entry_index(es, k, n),
    decreases n,
{
    if n > 0 {
        lemma_entry_index_prefix(es, extra, k, n - 1);
    }
}

proof fn lemma_ne_len(a: Seq<char>, b: Seq<char>)
    requires
        a.len() != b.len(),
    ensures
        a != b,
{
}

proof fn lemma_ne_first(a: Seq<char>, b: Seq<char>)
    requires
        a.len() > 0,
        b.len() > 0,
        a[0] != b[0],
    ensures
        a != b,
{
}

/// A key set in a table reads back.
pub proof fn lemma_lookup_set_same(es: Entries, key: Seq<char>, it: TomlItem)
    requires
        !(it is Empty),
    ensures
        lookup(set_entry(es, key, it), key) == Some(it),
{
    let n = es.len() as int;
    lemma_entry_index_bounds(es, key, n);
    match entry_index(es, key, n) {
        Some(i) => {
            crate::config::lemma_entry_index_update(es, i, key, it, key);
        },
        None => {
            let p = es.push((key, it));
            lemma_entry_index_bounds(p, key, n + 1);
            lemma_entry_index_prefix(es, seq![(key, it)], key, n);
            assert(es + seq![(key, it)] =~= p);
            assert(entry_index(p, key, n) is None);
            assert(entry_index(p, key, n + 1) == Some(n));
        },
    }
}

/// Setting one key leaves the others as they were.
pub proof fn lemma_lookup_set_other(es: Entries, key: Seq<char>, it: TomlItem, k: Seq<char>)
    requires
        k != key,
    ensures
        lookup(set_entry(es, key, it), k) == lookup(es, k),
{
    let n = es.len() as int;
    lemma_entry_index_bounds(es, key, n);
    match entry_index(es, key, n) {
        Some(i) => {
            crate::config::lemma_entry_index_update(es, i, key, it, k);
            let u = es.update(i, (key, it));
            lemma_entry_index_bounds(es, k, n);
            match entry_index(es, k, n) {
                Some(j) => {
                    assert(j != i);
                },
                None => {},
            }
        },
        None => {
            let p = es.push((key, it));
            lemma_entry_index_push_other(es, key, it, k, n);
            assert(entry_index(p, k, n + 1) == entry_index(p, k, n)) by {
                lemma_entry_index_bounds(p, k, n);
            }
            lemma_entry_index_bounds(es, k, n);
        },
    }
}

/// Replacing a table leaves the other keys as they were.
pub proof fn lemma_lookup_update_sub_other(es: Entries, t: Seq<char>, inner: Entries, k: Seq<char>)
    requires
        k != t,
    ensures
        lookup(update_sub(es, t, inner), k) == lookup(es, k),
{
    let n = es.len() as int;
    lemma_entry_index_bounds(es, t, n);
    match entry_index(es, t, n) {
        Some(i) => {
            if es[i].1 is Table {
                crate::config::lemma_entry_index_update(es, i, t, TomlItem::Table(inner), k);
                lemma_entry_index_bounds(es, k, n);
                match entry_index(es, k, n) {
                    Some(j) => {
                        assert(j != i);
                    },
                    None => {},
                }
            }
        },
        None => {},
    }
}

proof fn lemma_set_in2_reads(c: Entries, t1: Seq<char>, t2: Seq<char>, key: Seq<char>, it: TomlItem)
    requires
        sub_table(c, t1) is Some,
        sub_table(sub_table(c, t1)->0, t2) is Some,
        !(it is Empty),
    ensures
        sub_table(set_in2(c, t1, t2, key, it), t1) is Some,
        sub_table(sub_table(set_in2(c, t1, t2, key, it), t1)->0, t2) is Some,
        lookup(sub_table(sub_table(set_in2(c, t1, t2, key, it), t1)->0, t2)->0, key) == Some(it),
        forall|k: Seq<char>| k != key ==> lookup(sub_table(sub_table(set_in2(c, t1, t2, key, it), t1)->0, t2)->0, k)
            == lookup(sub_table(sub_table(c, t1)->0, t2)->0, k),
        forall|k: Seq<char>| k != t1 ==> lookup(set_in2(c, t1, t2, key, it), k) == lookup(c, k),
{
    let mid = sub_table(c, t1)->0;
    let inner = sub_table(mid, t2)->0;
    let inner2 = set_entry(inner, key, it);
    let mid2 = update_sub(mid, t2, inner2);
    lemma_update_sub_lookup(mid, t2, inner2);
    lemma_update_sub_lookup(c, t1, mid2);
    lemma_lookup_set_same(inner, key, it);
    assert forall|k: Seq<char>| k != key implies lookup(inner2, k) == lookup(inner, k) by {
        lemma_lookup_set_other(inner, key, it, k);
    }
    assert forall|k: Seq<char>| k != t1 implies lookup(set_in2(c, t1, t2, key, it), k) == lookup(c, k) by {
        lemma_lookup_update_sub_other(c, t1, mid2, k);
    }
}

/// After a switch to a custom provider, the config reads back what it wrote: the provider is
/// `custom`, the model is the one given (when it is a trimmed, non-blank string), and
/// `[model_providers.custom]` holds the name, base URL, wire API and auth flag.
pub proof fn switch_reads_back(es: Entries, name: Seq<char>, base_url: Seq<char>, model: Seq<char>, wire_api: Seq<char>, auth: bool)
    requires
        switch_spec(es, name, base_url, model, wire_api, auth) is Some,
    ensures
        ({
            let out = switch_spec(es, name, base_url, model, wire_api, auth)->0;
            &&& lookup(out, "model_provider"@) == Some(TomlItem::Str("custom"@))
            &&& lookup(out, "model"@) == Some(TomlItem::Str(model))
            &&& sub_table(out, "model_providers"@) is Some
            &&& sub_table(sub_table(out, "model_providers"@)->0, "custom"@) matches Some(t) && {
                &&& lookup(t, "name"@) == Some(TomlItem::Str(name))
                &&& lookup(t, "base_url"@) == Some(TomlItem::Str(base_url))
                &&& lookup(t, "wire_api"@) == Some(TomlItem::Str(wire_api))
                &&& lookup(t, "requires_openai_auth"@) == Some(TomlItem::Bool(auth))
            }
        }),
{
    reveal_strlit("model_provider");
    reveal_strlit("model");
    reveal_strlit("model_providers");
    reveal_strlit("custom");
    reveal_strlit("name");
    reveal_strlit("base_url");
    reveal_strlit("wire_api");
    reveal_strlit("requires_openai_auth");
    reveal_strlit("model_reasoning_effort");
    reveal_strlit("disable_response_storage");
    let mp = "model_providers"@;
    let cu = "custom"@;
    lemma_ne_len("model"@, "model_provider"@);
    lemma_ne_len("model_reasoning_effort"@, "model_provider"@);
    lemma_ne_len("model_reasoning_effort"@, "model"@);
    lemma_ne_len("disable_response_storage"@, "model_provider"@);
    lemma_ne_len("disable_response_storage"@, "model"@);
    lemma_ne_len(mp, "model_provider"@);
    lemma_ne_len(mp, "model"@);
    lemma_ne_len("name"@, "base_url"@);
    lemma_ne_len("name"@, "wire_api"@);
    lemma_ne_len("name"@, "requires_openai_auth"@);
    lemma_ne_first("base_url"@, "wire_api"@);
    lemma_ne_len("base_url"@, "requires_openai_auth"@);
    lemma_ne_len("wire_api"@, "requires_openai_auth"@);
    let e1 = set_entry(es, "model_provider"@, TomlItem::Str("custom"@));
    let e2 = set_entry(e1, "model"@, TomlItem::Str(model));
    lemma_lookup_set_same(es, "model_provider"@, TomlItem::Str("custom"@));
    lemma_lookup_set_other(e1, "model"@, TomlItem::Str(model), "model_provider"@);
    lemma_lookup_set_same(e1, "model"@, TomlItem::Str(model));
    let a = defaults_spec(e2);
    let e3 = if lookup(e2, "model_reasoning_effort"@) is None {
        set_entry(e2, "model_reasoning_effort"@, TomlItem::Str("high"@))
    } else {
        e2
    };
    if lookup(e2, "model_reasoning_effort"@) is None {
        lemma_lookup_set_other(e2, "model_reasoning_effort"@, TomlItem::Str("high"@), "model_provider"@);
        lemma_lookup_set_other(e2, "model_reasoning_effort"@, TomlItem::Str("high"@), "model"@);
    }
    if lookup(e3, "disable_response_storage"@) is None {
        lemma_lookup_set_other(e3, "disable_response_storage"@, TomlItem::Bool(true), "model_provider"@);
        lemma_lookup_set_other(e3, "disable_response_storage"@, TomlItem::Bool(true), "model"@);
    }
    assert(lookup(a, "model_provider"@) == Some(TomlItem::Str("custom"@)));
    assert(lookup(a, "model"@) == Some(TomlItem::Str(model)));
    let b0 = if lookup(a, mp) is None { set_entry(a, mp, TomlItem::Table(Seq::empty())) } else { a };
    if lookup(a, mp) is None {
        lemma_lookup_set_other(a, mp, TomlItem::Table(Seq::empty()), "model_provider"@);
        lemma_lookup_set_other(a, mp, TomlItem::Table(Seq::empty()), "model"@);
    }
    let b = ensure_spec(a, mp)->0;
    assert(b == b0);
    let mid = sub_table(b, mp)->0;
    let mid0 = if lookup(mid, cu) is None { set_entry(mid, cu, TomlItem::Table(Seq::empty())) } else { mid };
    let c = ensure_in_spec(b, mp, cu)->0;
    assert(c == update_sub(b, mp, mid0));
    lemma_update_sub_lookup(b, mp, mid0);
    lemma_lookup_update_sub_other(b, mp, mid0, "model_provider"@);
    lemma_lookup_update_sub_other(b, mp, mid0, "model"@);
    let s1 = set_in2(c, mp, cu, "name"@, TomlItem::Str(name));
    lemma_set_in2_reads(c, mp, cu, "name"@, TomlItem::Str(name));
    let s2 = set_in2(s1, mp, cu, "base_url"@, TomlItem::Str(base_url));
    lemma_set_in2_reads(s1, mp, cu, "base_url"@, TomlItem::Str(base_url));
    let s3 = set_in2(s2, mp, cu, "wire_api"@, TomlItem::Str(wire_api));
    lemma_set_in2_reads(s2, mp, cu, "wire_api"@, TomlItem::Str(wire_api));
    let s4 = set_in2(s3, mp, cu, "requires_openai_auth"@, TomlItem::Bool(auth));
    lemma_set_in2_reads(s3, mp, cu, "requires_openai_auth"@, TomlItem::Bool(auth));
}


/// Enabling an instruction file reads back: `model_instructions_file` is the reference given,
/// and a model is set (the one there, or `gpt-5.5`).
pub proof fn instruction_reads_back(es: Entries, relative: Seq<char>)
    ensures
        lookup(instruction_spec(es, relative), "model_instructions_file"@) == Some(TomlItem::Str(relative)),
        lookup(instruction_spec(es, relative), "model"@) is Some,
        lookup(es, "model"@) is Some ==> lookup(instruction_spec(es, relative), "model"@) == lookup(es, "model"@),
{
    reveal_strlit("model");
    reveal_strlit("model_instructions_file");
    assert("model"@.len() == 5);
    assert("model_instructions_file"@.len() == 23);
    lemma_ne_len("model"@, "model_instructions_file"@);
    let a = if lookup(es, "model"@) is None { set_entry(es, "model"@, TomlItem::Str("gpt-5.5"@)) } else { es };
    if lookup(es, "model"@) is None {
        lemma_lookup_set_same(es, "model"@, TomlItem::Str("gpt-5.5"@));
    }
    lemma_lookup_set_same(a, "model_instructions_file"@, TomlItem::Str(relative));
    lemma_lookup_set_other(a, "model_instructions_file"@, TomlItem::Str(relative), "model"@);
}

/// The defaults a switch adds are added once: adding them again changes nothing.
pub proof fn defaults_idempotent(es: Entries)
    ensures
        defaults_spec(defaults_spec(es)) == defaults_spec(es),
{
    reveal_strlit("model_reasoning_effort");
    reveal_strlit("disable_response_storage");
    lemma_ne_len("model_reasoning_effort"@, "disable_response_storage"@);
    let k1 = "model_reasoning_effort"@;
    let k2 = "disable_response_storage"@;
    let a = if lookup(es, k1) is None { set_entry(es, k1, TomlItem::Str("high"@)) } else { es };
    if lookup(es, k1) is None {
        lemma_lookup_set_same(es, k1, TomlItem::Str("high"@));
    }
    let b = defaults_spec(es);
    if lookup(a, k2) is None {
        lemma_lookup_set_same(a, k2, TomlItem::Bool(true));
        lemma_lookup_set_other(a, k2, TomlItem::Bool(true), k1);
    }
    assert(lookup(b, k1) is Some);
    assert(lookup(b, k2) is Some);
}

/// Every key of a table occurs once (as in `toml_edit`'s tables).
pub open spec fn keys_unique(es: Entries) -> bool {
    forall|i: int, j: int| 0 <= i < j < es.len() ==> es[i].0 != es[j].0
}

/// Removing a key from a table with unique keys leaves no such key.
pub proof fn lemma_lookup_remove_same(es: Entries, key: Seq<char>)
    requires
        keys_unique(es),
    ensures
        lookup(remove_entry(es, key), key) is None,
{
    let n = es.len() as int;
    lemma_entry_index_bounds(es, key, n);
    match entry_index(es, key, n) {
        Some(i) => {
            let r = es.remove(i);
            lemma_entry_index_bounds(r, key, n - 1);
            match entry_index(r, key, n - 1) {
                Some(j) => {
                    if j < i {
                        assert(r[j] == es[j]);
                    } else {
                        assert(r[j] == es[j + 1]);
                    }
                },
                None => {},
            }
        },
        None => {},
    }
}

/// Disabling the instruction file leaves none configured.
pub proof fn disable_clears_instruction(es: Entries)
    requires
        keys_unique(es),
    ensures
        str_value_spec(remove_entry(es, "model_instructions_file"@), "model_instructions_file"@) is None,
{
    lemma_lookup_remove_same(es, "model_instructions_file"@);
}


proof fn lemma_entry_index_remove_other(es: Entries, i: int, k: Seq<char>)
    requires
        0 <= i < es.len(),
        es[i].0 != k,
        entry_index(es, es[i].0, es.len() as int) == Some(i),
    ensures
        match entry_index(es, k, es.len() as int) {
            Some(j) => entry_index(es.remove(i), k, es.len() - 1) == Some(if j < i { j } else { j - 1 }),
            None => entry_index(es.remove(i), k, es.len() - 1) is None,
        },
{
    let n = es.len() as int;
    let r = es.remove(i);
    lemma_entry_index_bounds(es, k, n);
    lemma_entry_index_bounds(r, k, n - 1);
    match entry_index(es, k, n) {
        Some(j) => {
            let jj = if j < i { j } else { j - 1 };
            assert(r[jj] == es[j]);
            assert forall|m: int| 0 <= m < jj implies r[m].0 != k by {
                if m < i {
                    assert(r[m] == es[m]);
                } else {
                    assert(r[m] == es[m + 1]);
                }
            }
            crate::config::lemma_entry_index_first(r, k, jj, n - 1);
        },
        None => {
            match entry_index(r, k, n - 1) {
                Some(m) => {
                    if m < i {
                        assert(r[m] == es[m]);
                    } else {
                        assert(r[m] == es[m + 1]);
                    }
                },
                None => {},
            }
        },
    }
}

/// Removing one key leaves the others as they were.
pub proof fn lemma_lookup_remove_other(es: Entries, key: Seq<char>, k: Seq<char>)
    requires
        k != key,
    ensures
        lookup(remove_entry(es, key), k) == lookup(es, k),
{
    let n = es.len() as int;
    lemma_entry_index_bounds(es, key, n);
    match entry_index(es, key, n) {
        Some(i) => {
            lemma_entry_index_remove_other(es, i, k);
            lemma_entry_index_bounds(es, k, n);
            match entry_index(es, k, n) {
                Some(j) => {
                    if j < i {
                        assert(es.remove(i)[j] == es[j]);
                    } else {
                        assert(es.remove(i)[j - 1] == es[j]);
                    }
                },
                None => {},
            }
        },
        None => {},
    }
}

proof fn lemma_unique_remove(es: Entries, key: Seq<char>)
    requires
        keys_unique(es),
    ensures
        keys_unique(remove_entry(es, key)),
{
    let n = es.len() as int;
    lemma_entry_index_bounds(es, key, n);
    match entry_index(es, key, n) {
        Some(i) => {
            let r = es.remove(i);
            assert forall|a: int, b: int| 0 <= a < b < r.len() implies r[a].0 != r[b].0 by {
                let a2 = if a < i { a } else { a + 1 };
                let b2 = if b < i { b } else { b + 1 };
                assert(r[a] == es[a2]);
                assert(r[b] == es[b2]);
            }
        },
        None => {},
    }
}

proof fn lemma_unique_update_sub(es: Entries, t: Seq<char>, inner: Entries)
    requires
        keys_unique(es),
    ensures
        keys_unique(update_sub(es, t, inner)),
{
    let n = es.len() as int;
    lemma_entry_index_bounds(es, t, n);
    let u = update_sub(es, t, inner);
    assert forall|a: int, b: int| 0 <= a < b < u.len() implies u[a].0 != u[b].0 by {
        assert(u[a].0 == es[a].0);
        assert(u[b].0 == es[b].0);
    }
}

/// After a switch to the official provider, no provider is selected and no `custom` provider
/// table is left.
pub proof fn official_clears_custom(es: Entries, model: Option<Seq<char>>)
    requires
        keys_unique(es),
        sub_table(es, "model_providers"@) matches Some(ps) ==> keys_unique(ps),
    ensures
        lookup(official_spec(es, model), "model_provider"@) is None,
        sub_table(official_spec(es, model), "model_providers"@) matches Some(ps) ==> lookup(ps, "custom"@) is None,
{
    reveal_strlit("model_provider");
    reveal_strlit("model_providers");
    reveal_strlit("model");
    let mp = "model_providers"@;
    lemma_ne_len(mp, "model_provider"@);
    lemma_ne_len("model"@, "model_provider"@);
    lemma_ne_len("model"@, mp);
    let a = remove_entry(es, "model_provider"@);
    lemma_lookup_remove_same(es, "model_provider"@);
    lemma_unique_remove(es, "model_provider"@);
    lemma_lookup_remove_other(es, "model_provider"@, mp);
    let b = match sub_table(a, mp) {
        Some(ps) => {
            let ps2 = remove_entry(ps, "custom"@);
            let c = update_sub(a, mp, ps2);
            if crate::toml::visible_keys(ps2).len() == 0 { remove_entry(c, mp) } else { c }
        },
        None => a,
    };
    match sub_table(a, mp) {
        Some(ps) => {
            let ps2 = remove_entry(ps, "custom"@);
            let c = update_sub(a, mp, ps2);
            lemma_lookup_remove_same(ps, "custom"@);
            lemma_update_sub_lookup(a, mp, ps2);
            lemma_lookup_update_sub_other(a, mp, ps2, "model_provider"@);
            lemma_unique_update_sub(a, mp, ps2);
            if crate::toml::visible_keys(ps2).len() == 0 {
                lemma_lookup_remove_same(c, mp);
                lemma_lookup_remove_other(c, mp, "model_provider"@);
            }
        },
        None => {},
    }
    assert(lookup(b, "model_provider"@) is None);
    assert(sub_table(b, mp) matches Some(ps) ==> lookup(ps, "custom"@) is None);
    match model {
        Some(m) => {
            if trim(m).len() > 0 {
                lemma_lookup_set_other(b, "model"@, TomlItem::Str(trim(m)), "model_provider"@);
                lemma_lookup_set_other(b, "model"@, TomlItem::Str(trim(m)), mp);
            }
        },
        None => {},
    }
}


/// A segment is its line followed by its ending.
pub proof fn line_and_ending_rebuild(seg: Seq<char>)
    ensures
        line_of(seg) + ending_of(seg) == seg,
{
    assert(line_of(seg) + ending_of(seg) =~= seg);
}

proof fn lemma_step_dry(st: LogScan, seg: Seq<char>, target: Seq<char>)
    ensures
        line_step(st, seg, target, false).out == st.out + seg,
        line_step(st, seg, target, false).meta_count - st.meta_count
            >= line_step(st, seg, target, false).mismatched - st.mismatched,
{
    line_and_ending_rebuild(seg);
    assert(st.out + line_of(seg) + ending_of(seg) =~= st.out + seg);
}

/// A scan that does not rewrite gives back the text as it was.
pub proof fn dry_run_keeps_text(s: Seq<char>, st: LogScan, target: Seq<char>)
    ensures
        scan_segments(s, st, target, false).out == st.out + s,
    decreases s.len(),
{
    if s.len() == 0 {
        assert(st.out + s =~= st.out);
    } else {
        lemma_seg_len(s);
        let k = seg_len(s);
        let st2 = line_step(st, s.subrange(0, k), target, false);
        lemma_step_dry(st, s.subrange(0, k), target);
        dry_run_keeps_text(s.subrange(k, s.len() as int), st2, target);
        assert(st.out + s.subrange(0, k) + s.subrange(k, s.len() as int) =~= st.out + s);
    }
}

proof fn lemma_step_counts(st: LogScan, seg: Seq<char>, target: Seq<char>, rewrite: bool)
    ensures
        ({
            let st2 = line_step(st, seg, target, rewrite);
            &&& st2.mismatched - st.mismatched <= st2.meta_count - st.meta_count
            &&& st2.mismatched >= st.mismatched
            &&& st2.changed == (st.changed || st2.mismatched > st.mismatched)
            &&& st2.has_meta == (st.has_meta || st2.meta_count > st.meta_count)
        }),
{
}

/// Every mismatched record is a `session_meta` record, a log counts as changed exactly when
/// one of its records is mismatched, and as having metadata exactly when it has a record.
pub proof fn scan_counts_agree(s: Seq<char>, st: LogScan, target: Seq<char>, rewrite: bool)
    ensures
        ({
            let r = scan_segments(s, st, target, rewrite);
            &&& r.mismatched - st.mismatched <= r.meta_count - st.meta_count
            &&& r.mismatched >= st.mismatched
            &&& r.changed == (st.changed || r.mismatched > st.mismatched)
            &&& r.has_meta == (st.has_meta || r.meta_count > st.meta_count)
        }),
    decreases s.len(),
{
    if s.len() > 0 {
        lemma_seg_len(s);
        let k = seg_len(s);
        let st2 = line_step(st, s.subrange(0, k), target, rewrite);
        lemma_step_counts(st, s.subrange(0, k), target, rewrite);
        scan_counts_agree(s.subrange(k, s.len() as int), st2, target, rewrite);
    }
}


proof fn lemma_mask_nonblank()
    ensures
        trim(mask()).len() > 0,
{
    reveal_strlit("••••••••");
    let m = mask();
    assert(!crate::text::is_ws(m[0]));
    assert(trim_start(m) == m);
    assert(!crate::text::is_ws(m.last()));
    assert(trim_end(m) == m);
}

/// Redacting a preview twice is redacting it once.
pub proof fn redaction_idempotent(v: JsonModel)
    ensures
        redacted_spec(redacted_spec(v)) == redacted_spec(v),
{
    lemma_mask_nonblank();
    match v {
        JsonModel::Object(ms) => {
            let once = ms.map_values(|m: (Seq<char>, JsonModel)| redact_member(m));
            let twice = once.map_values(|m: (Seq<char>, JsonModel)| redact_member(m));
            assert(twice =~= once);
        },
        _ => {},
    }
}

proof fn lemma_member_index_keys(a: Seq<(Seq<char>, JsonModel)>, b: Seq<(Seq<char>, JsonModel)>, key: Seq<char>, n: int)
    requires
        a.len() == b.len(),
        forall|m: int| 0 <= m < a.len() ==> a[m].0 == b[m].0,
    ensures
        member_index(a, key, n) == member_index(b, key, n),
    decreases n,
{
    if n > 0 {
        lemma_member_index_keys(a, b, key, n - 1);
    }
}

proof fn lemma_member_index_prefix(a: Seq<(Seq<char>, JsonModel)>, extra: Seq<(Seq<char>, JsonModel)>, key: Seq<char>, n: int)
    requires
        n <= a.len(),
    ensures
        member_index(a + extra, key, n) == member_index(a, key, n),
    decreases n,
{
    if n > 0 {
        lemma_member_index_prefix(a, extra, key, n - 1);
    }
}

/// A member set in an object reads back.
pub proof fn lemma_member_set_same(ms: Seq<(Seq<char>, JsonModel)>, key: Seq<char>, val: JsonModel)
    ensures
        model_get(JsonModel::Object(set_member(ms, key, val)), key) == Some(val),
{
    let n = ms.len() as int;
    lemma_member_index_bounds(ms, key, n);
    match member_index(ms, key, n) {
        Some(i) => {
            lemma_member_index_keys(ms.update(i, (key, val)), ms, key, n);
        },
        None => {
            let p = ms.push((key, val));
            lemma_member_index_prefix(ms, seq![(key, val)], key, n);
            assert(ms + seq![(key, val)] =~= p);
            lemma_member_index_bounds(p, key, n);
            assert(member_index(p, key, n + 1) == Some(n));
        },
    }
}

/// Storing an API key in `auth.json` reads back: its `OPENAI_API_KEY` is the key.
pub proof fn api_key_reads_back(existing: Option<Seq<char>>, key: Seq<char>)
    ensures
        str_member(auth_with_key_spec(existing, key), "OPENAI_API_KEY"@) == Some(key),
{
    let base = match existing {
        Some(t) => match crate::json::json_parse_spec(t) {
            Some(JsonModel::Object(ms)) => ms,
            _ => Seq::empty(),
        },
        None => Seq::empty(),
    };
    lemma_member_set_same(base, "OPENAI_API_KEY"@, JsonModel::Str(key));
}


/// The ids of a list of sessions are all different.
pub open spec fn ids_distinct(s: Seq<SessionPreview>) -> bool {
    forall|i: int, j: int| 0 <= i < j < s.len() ==> s[i].id@ != s[j].id@
}

/// Newest first: no session is older than one after it.
pub open spec fn newest_first(s: Seq<SessionPreview>) -> bool {
    forall|i: int, j: int| 0 <= i < j < s.len() ==> !key_lt(s[i].updated_at_ms, s[j].updated_at_ms)
}

proof fn lemma_dedup(s: Seq<SessionPreview>, seen: Set<Seq<char>>)
    ensures
        ids_distinct(dedup_from(s, seen)),
        forall|i: int| 0 <= i < dedup_from(s, seen).len() ==> !seen.contains(#[trigger] dedup_from(s, seen)[i].id@),
        forall|i: int| 0 <= i < dedup_from(s, seen).len() ==> s.contains(#[trigger] dedup_from(s, seen)[i]),
    decreases s.len(),
{
    if s.len() > 0 {
        let rest = s.drop_first();
        if seen.contains(s[0].id@) {
            lemma_dedup(rest, seen);
            assert forall|i: int| 0 <= i < dedup_from(s, seen).len() implies s.contains(#[trigger] dedup_from(s, seen)[i]) by {
                let y = dedup_from(rest, seen)[i];
                let k = choose|k: int| 0 <= k < rest.len() && rest[k] == y;
                assert(s[k + 1] == y);
            }
        } else {
            let seen2 = seen.insert(s[0].id@);
            lemma_dedup(rest, seen2);
            let d = dedup_from(s, seen);
            let dr = dedup_from(rest, seen2);
            assert(d == seq![s[0]] + dr);
            assert forall|i: int, j: int| 0 <= i < j < d.len() implies d[i].id@ != d[j].id@ by {
                if i == 0 {
                    assert(d[j] == dr[j - 1]);
                    assert(!seen2.contains(dr[j - 1].id@));
                } else {
                    assert(d[i] == dr[i - 1]);
                    assert(d[j] == dr[j - 1]);
                }
            }
            assert forall|i: int| 0 <= i < d.len() implies !seen.contains(#[trigger] d[i].id@) by {
                if i > 0 {
                    assert(d[i] == dr[i - 1]);
                    assert(!seen2.contains(dr[i - 1].id@));
                }
            }
            assert forall|i: int| 0 <= i < d.len() implies s.contains(#[trigger] d[i]) by {
                if i == 0 {
                    assert(s[0] == d[0]);
                } else {
                    let y = dr[i - 1];
                    assert(d[i] == y);
                    let k = choose|k: int| 0 <= k < rest.len() && rest[k] == y;
                    assert(s[k + 1] == y);
                }
            }
        }
    }
}

proof fn lemma_insert_pos_props(s: Seq<SessionPreview>, x: SessionPreview, n: int)
    requires
        0 <= n <= s.len(),
    ensures
        0 <= insert_pos(s, x, n) <= n,
        forall|q: int| 0 <= q < insert_pos(s, x, n) ==> !key_lt(s[q].updated_at_ms, x.updated_at_ms),
        insert_pos(s, x, n) < n ==> key_lt(s[insert_pos(s, x, n)].updated_at_ms, x.updated_at_ms),
    decreases n,
{
    if n > 0 {
        lemma_insert_pos_props(s, x, n - 1);
    }
}

proof fn lemma_key_lt_trans(a: Option<i64>, b: Option<i64>, c: Option<i64>)
    ensures
        key_lt(a, b) && key_lt(b, c) ==> key_lt(a, c),
        !key_lt(a, b) && !key_lt(b, c) ==> !key_lt(a, c),
        !key_lt(a, b) && key_lt(c, b) ==> key_lt(c, a),
        key_lt(a, b) ==> !key_lt(b, a),
{
}

proof fn lemma_sort(s: Seq<SessionPreview>)
    ensures
        sort_newest_first(s).len() == s.len(),
        newest_first(sort_newest_first(s)),
        forall|i: int| 0 <= i < sort_newest_first(s).len() ==> s.contains(#[trigger] sort_newest_first(s)[i]),
        ids_distinct(s) ==> ids_distinct(sort_newest_first(s)),
    decreases s.len(),
{
    if s.len() > 0 {
        let init = s.drop_last();
        let x = s.last();
        lemma_sort(init);
        let sorted = sort_newest_first(init);
        lemma_insert_pos_props(sorted, x, sorted.len() as int);
        let p = insert_pos(sorted, x, sorted.len() as int);
        let r = sorted.insert(p, x);
        assert(r == sort_newest_first(s));
        assert forall|i: int, j: int| 0 <= i < j < r.len() implies !key_lt(r[i].updated_at_ms, r[j].updated_at_ms) by {
            if j < p {
                assert(r[i] == sorted[i] && r[j] == sorted[j]);
            } else if j == p {
                assert(r[i] == sorted[i]);
            } else if i < p {
                assert(r[i] == sorted[i] && r[j] == sorted[j - 1]);
                lemma_key_lt_trans(sorted[i].updated_at_ms, x.updated_at_ms, sorted[j - 1].updated_at_ms);
                if p < sorted.len() {
                    lemma_key_lt_trans(sorted[p].updated_at_ms, sorted[j - 1].updated_at_ms, x.updated_at_ms);
                }
                if key_lt(sorted[i].updated_at_ms, sorted[j - 1].updated_at_ms) {
                    assert(p < sorted.len());
                    assert(!key_lt(sorted[p].updated_at_ms, sorted[j - 1].updated_at_ms) || p == j - 1);
                    lemma_key_lt_trans(sorted[j - 1].updated_at_ms, sorted[p].updated_at_ms, x.updated_at_ms);
                    lemma_key_lt_trans(sorted[i].updated_at_ms, sorted[j - 1].updated_at_ms, x.updated_at_ms);
                }
            } else if i == p {
                assert(r[j] == sorted[j - 1]);
                assert(key_lt(sorted[p].updated_at_ms, x.updated_at_ms));
                if p < j - 1 {
                    lemma_key_lt_trans(sorted[j - 1].updated_at_ms, sorted[p].updated_at_ms, x.updated_at_ms);
                    assert(!key_lt(sorted[p].updated_at_ms, sorted[j - 1].updated_at_ms));
                }
                lemma_key_lt_trans(x.updated_at_ms, sorted[j - 1].updated_at_ms, sorted[p].updated_at_ms);
            } else {
                assert(r[i] == sorted[i - 1] && r[j] == sorted[j - 1]);
            }
        }
        assert forall|i: int| 0 <= i < r.len() implies s.contains(#[trigger] r[i]) by {
            if i == p {
                assert(s[s.len() - 1] == x);
            } else {
                let y = if i < p { sorted[i] } else { sorted[i - 1] };
                assert(r[i] == y);
                assert(init.contains(y));
                let k = choose|k: int| 0 <= k < init.len() && init[k] == y;
                assert(s[k] == y);
            }
        }
        if ids_distinct(s) {
            assert(ids_distinct(init)) by {
                assert forall|i: int, j: int| 0 <= i < j < init.len() implies init[i].id@ != init[j].id@ by {
                    assert(init[i] == s[i] && init[j] == s[j]);
                }
            }
            assert forall|q: int| 0 <= q < sorted.len() implies sorted[q].id@ != x.id@ by {
                assert(init.contains(sorted[q]));
                let k = choose|k: int| 0 <= k < init.len() && init[k] == sorted[q];
                assert(s[k] == sorted[q]);
            }
            assert forall|i: int, j: int| 0 <= i < j < r.len() implies r[i].id@ != r[j].id@ by {
                if i == p {
                    assert(r[j] == sorted[j - 1]);
                } else if j == p {
                    assert(r[i] == sorted[i]);
                } else {
                    let a = if i < p { i } else { i - 1 };
                    let b = if j < p { j } else { j - 1 };
                    assert(r[i] == sorted[a] && r[j] == sorted[b]);
                }
            }
        }
    }
}

/// The session list holds each id once, newest first, at most `limit` entries, each one of
/// the sessions found.
pub proof fn session_list_unique_sorted(s: Seq<SessionPreview>, limit: int)
    requires
        0 <= limit,
    ensures
        ids_distinct(merged_sessions(s, limit)),
        newest_first(merged_sessions(s, limit)),
        merged_sessions(s, limit).len() <= limit,
        forall|i: int| 0 <= i < merged_sessions(s, limit).len() ==> s.contains(#[trigger] merged_sessions(s, limit)[i]),
{
    let d = dedup_from(s, Set::empty());
    lemma_dedup(s, Set::empty());
    lemma_sort(d);
    let sorted = sort_newest_first(d);
    let m = merged_sessions(s, limit);
    assert forall|i: int| 0 <= i < m.len() implies s.contains(#[trigger] m[i]) by {
        assert(m[i] == sorted[i]);
        assert(d.contains(sorted[i]));
        let k = choose|k: int| 0 <= k < d.len() && d[k] == sorted[i];
        assert(s.contains(d[k]));
    }
    assert forall|i: int, j: int| 0 <= i < j < m.len() implies m[i].id@ != m[j].id@ by {
        assert(m[i] == sorted[i] && m[j] == sorted[j]);
    }
    assert forall|i: int, j: int| 0 <= i < j < m.len() implies !key_lt(m[i].updated_at_ms, m[j].updated_at_ms) by {
        assert(m[i] == sorted[i] && m[j] == sorted[j]);
    }
}


/// A character a generated name may hold.
pub open spec fn slug_char(c: char, extra: bool) -> bool {
    ('a' <= c && c <= 'z') || ('0' <= c && c <= '9') || c == '-' || (extra && c == '_')
}

proof fn lemma_slug_scan_chars(s: Seq<char>, extra: bool)
    requires
        forall|i: int| 0 <= i < s.len() ==> !('A' <= #[trigger] s[i] && s[i] <= 'Z'),
    ensures
        forall|i: int| 0 <= i < slug_scan(s, extra).0.len() ==> slug_char(#[trigger] slug_scan(s, extra).0[i], extra),
    decreases s.len(),
{
    if s.len() > 0 {
        let init = s.drop_last();
        assert forall|i: int| 0 <= i < init.len() implies !('A' <= #[trigger] init[i] && init[i] <= 'Z') by {
            assert(init[i] == s[i]);
        }
        lemma_slug_scan_chars(init, extra);
        assert(!('A' <= s.last() && s.last() <= 'Z'));
        let st = slug_scan(init, extra);
        let r = slug_scan(s, extra);
        assert(r == slug_step(st, s.last(), extra));
        assert forall|i: int| 0 <= i < r.0.len() implies slug_char(#[trigger] r.0[i], extra) by {
            if i < st.0.len() {
                assert(r.0[i] == st.0[i]);
            }
        }
    }
}

proof fn lemma_lower_not_upper(s: Seq<char>)
    ensures
        forall|i: int| 0 <= i < lower_seq(s).len() ==> !('A' <= #[trigger] lower_seq(s)[i] && lower_seq(s)[i] <= 'Z'),
{
    assert forall|i: int| 0 <= i < lower_seq(s).len() implies !('A' <= #[trigger] lower_seq(s)[i] && lower_seq(s)[i] <= 'Z') by {
        let c = s[i];
        assert(lower_seq(s)[i] == lower(c));
        if 'A' <= c && c <= 'Z' {
            assert((c as u32) + 32 >= 97);
        }
    }
}

proof fn lemma_trim_start_char_sub(s: Seq<char>, c: char)
    ensures
        exists|i: int| 0 <= i <= s.len() && trim_start_char(s, c) == s.subrange(i, s.len() as int),
        trim_start_char(s, c).len() > 0 ==> trim_start_char(s, c)[0] != c,
    decreases s.len(),
{
    if s.len() > 0 && s[0] == c {
        lemma_trim_start_char_sub(s.drop_first(), c);
        let i = choose|i: int| 0 <= i <= s.drop_first().len() && trim_start_char(s.drop_first(), c) == s.drop_first().subrange(i, s.drop_first().len() as int);
        assert(s.drop_first().subrange(i, s.drop_first().len() as int) =~= s.subrange(i + 1, s.len() as int));
    } else {
        assert(s.subrange(0, s.len() as int) =~= s);
    }
}

proof fn lemma_trim_end_char_sub(s: Seq<char>, c: char)
    ensures
        exists|j: int| 0 <= j <= s.len() && trim_end_char(s, c) == s.subrange(0, j),
        trim_end_char(s, c).len() > 0 ==> trim_end_char(s, c).last() != c,
    decreases s.len(),
{
    if s.len() > 0 && s.last() == c {
        lemma_trim_end_char_sub(s.drop_last(), c);
        let j = choose|j: int| 0 <= j <= s.drop_last().len() && trim_end_char(s.drop_last(), c) == s.drop_last().subrange(0, j);
        assert(s.drop_last().subrange(0, j) =~= s.subrange(0, j));
    } else {
        assert(s.subrange(0, s.len() as int) =~= s);
    }
}

/// The slug of any text holds only slug characters and neither starts nor ends with `-`.
pub proof fn slug_shape(s: Seq<char>, extra: bool)
    ensures
        forall|i: int| 0 <= i < slug(s, extra).len() ==> slug_char(#[trigger] slug(s, extra)[i], extra),
        slug(s, extra).len() > 0 ==> slug(s, extra)[0] != '-' && slug(s, extra).last() != '-',
{
    let l = lower_seq(s);
    lemma_lower_not_upper(s);
    lemma_slug_scan_chars(l, extra);
    let out = slug_scan(l, extra).0;
    lemma_trim_start_char_sub(out, '-');
    let a = trim_start_char(out, '-');
    let i = choose|i: int| 0 <= i <= out.len() && a == out.subrange(i, out.len() as int);
    lemma_trim_end_char_sub(a, '-');
    let b = trim_end_char(a, '-');
    let j = choose|j: int| 0 <= j <= a.len() && b == a.subrange(0, j);
    assert forall|k: int| 0 <= k < b.len() implies slug_char(#[trigger] b[k], extra) by {
        assert(b[k] == out[i + k]);
    }
    if b.len() > 0 {
        assert(b[0] == a[0]);
    }
}

/// A saved prompt's file name is safe to create next to `config.toml`: a non-empty stem of
/// lower-case letters, digits, `_` and `-` (not at either end), then `.md`.
pub proof fn prompt_filename_is_safe(input: Seq<char>, fallback: Seq<char>)
    ensures
        ({
            let f = prompt_filename_spec(input, fallback);
            &&& f.len() > 3
            &&& f.subrange(f.len() - 3, f.len() as int) == seq!['.', 'm', 'd']
            &&& forall|i: int| 0 <= i < f.len() - 3 ==> slug_char(#[trigger] f[i], true)
            &&& f[0] != '-'
            &&& f[f.len() - 4] != '-'
        }),
{
    let raw = crate::text::trim_end_str(trim(input), seq!['.', 'm', 'd']);
    let base = if raw.len() == 0 { fallback } else { raw };
    slug_shape(base, true);
    let out = slug(base, true);
    let stem = if out.len() == 0 { seq!['c','u','s','t','o','m','-','p','r','o','m','p','t'] } else { out };
    let f = prompt_filename_spec(input, fallback);
    assert(f == stem + seq!['.', 'm', 'd']);
    assert(f.subrange(f.len() - 3, f.len() as int) =~= seq!['.', 'm', 'd']);
    assert forall|i: int| 0 <= i < f.len() - 3 implies slug_char(#[trigger] f[i], true) by {
        assert(f[i] == stem[i]);
    }
    assert(f[f.len() - 4] == stem.last());
}

proof fn lemma_digits_chars(n: nat)
    ensures
        digits(n).len() > 0,
        forall|i: int| 0 <= i < digits(n).len() ==> '0' <= #[trigger] digits(n)[i] && digits(n)[i] <= '9',
    decreases n,
{
    if n >= 10 {
        lemma_digits_chars(n / 10);
    }
}

/// A sanitised id is a non-empty run of lower-case letters, digits and `-`; when the text
/// gave nothing usable it is `provider-` and the clock's decimal digits (with a sign).
pub proof fn sanitized_id_shape(input: Seq<char>, now_ms: int)
    ensures
        sanitize_id_spec(input, now_ms).len() > 0,
        forall|i: int| 0 <= i < sanitize_id_spec(input, now_ms).len() ==> slug_char(#[trigger] sanitize_id_spec(input, now_ms)[i], false),
{
    slug_shape(trim(input), false);
    let out = slug(trim(input), false);
    if out.len() == 0 {
        let m = if now_ms < 0 { (-now_ms) as nat } else { now_ms as nat };
        lemma_digits_chars(m);
        let p = seq!['p','r','o','v','i','d','e','r','-'];
        let r = sanitize_id_spec(input, now_ms);
        assert forall|i: int| 0 <= i < r.len() implies slug_char(#[trigger] r[i], false) by {
            if i < 9 {
                assert(r[i] == p[i]);
            } else if now_ms < 0 {
                if i == 9 {
                    assert(r[i] == '-');
                } else {
                    assert(r[i] == digits(m)[i - 10]);
                }
            } else {
                assert(r[i] == digits(m)[i - 9]);
            }
        }
    }
}

proof fn lemma_str_lt_asym(a: Seq<char>, b: Seq<char>)
    ensures
        str_lt(a, b) ==> !str_lt(b, a),
    decreases a.len(),
{
    if a.len() > 0 && b.len() > 0 && a[0] == b[0] {
        lemma_str_lt_asym(a.drop_first(), b.drop_first());
    }
}

proof fn lemma_str_lt_total(a: Seq<char>, b: Seq<char>)
    ensures
        !str_lt(a, b) && !str_lt(b, a) ==> a == b,
    decreases a.len(),
{
    if a.len() > 0 && b.len() > 0 && a[0] == b[0] {
        lemma_str_lt_total(a.drop_first(), b.drop_first());
        if !str_lt(a, b) && !str_lt(b, a) {
            assert(a =~= seq![a[0]] + a.drop_first());
            assert(b =~= seq![b[0]] + b.drop_first());
        }
    } else if a.len() == 0 && b.len() == 0 {
        assert(a =~= b);
    }
}

proof fn lemma_str_lt_trans(a: Seq<char>, b: Seq<char>, c: Seq<char>)
    ensures
        str_lt(a, b) && str_lt(b, c) ==> str_lt(a, c),
    decreases a.len(),
{
    if a.len() > 0 && b.len() > 0 && c.len() > 0 && a[0] == b[0] && b[0] == c[0] {
        lemma_str_lt_trans(a.drop_first(), b.drop_first(), c.drop_first());
    }
}

/// The three consequences of `str_lt` being a strict total order that the sort needs.
proof fn lemma_str_lt_order(a: Seq<char>, b: Seq<char>, c: Seq<char>)
    ensures
        str_lt(a, b) && str_lt(b, c) ==> str_lt(a, c),
        !str_lt(a, b) && !str_lt(b, c) ==> !str_lt(a, c),
        !str_lt(a, b) && str_lt(c, b) ==> str_lt(c, a),
        str_lt(a, b) ==> !str_lt(b, a),
{
    lemma_str_lt_trans(a, b, c);
    lemma_str_lt_trans(b, a, c);
    lemma_str_lt_trans(c, b, a);
    lemma_str_lt_total(a, b);
    lemma_str_lt_asym(a, b);
}

proof fn lemma_backup_pos_props(s: Seq<BackupEntry>, x: BackupEntry, n: int)
    requires
        0 <= n <= s.len(),
    ensures
        0 <= backup_pos(s, x, n) <= n,
        forall|q: int| 0 <= q < backup_pos(s, x, n) ==> !str_lt(s[q].created_at@, x.created_at@),
        backup_pos(s, x, n) < n ==> str_lt(s[backup_pos(s, x, n)].created_at@, x.created_at@),
    decreases n,
{
    if n > 0 {
        lemma_backup_pos_props(s, x, n - 1);
    }
}

/// Newest first: no backup was made before one listed after it.
pub open spec fn backups_sorted(s: Seq<BackupEntry>) -> bool {
    forall|i: int, j: int| 0 <= i < j < s.len() ==> !str_lt(s[i].created_at@, s[j].created_at@)
}

/// The backup listing holds exactly the backups found, newest first; the latest backup is
/// not older than any of them.
pub proof fn backups_newest_first(s: Seq<BackupEntry>)
    ensures
        sort_backups_spec(s).len() == s.len(),
        backups_sorted(sort_backups_spec(s)),
        forall|i: int| 0 <= i < s.len() ==> sort_backups_spec(s).contains(#[trigger] s[i]),
        forall|i: int| 0 <= i < s.len() ==> s.contains(#[trigger] sort_backups_spec(s)[i]),
        forall|k: int| 0 <= k < s.len() ==> !str_lt(sort_backups_spec(s)[0].created_at@, #[trigger] s[k].created_at@),
    decreases s.len(),
{
    if s.len() > 0 {
        let init = s.drop_last();
        let x = s.last();
        backups_newest_first(init);
        let sorted = sort_backups_spec(init);
        lemma_backup_pos_props(sorted, x, sorted.len() as int);
        let p = backup_pos(sorted, x, sorted.len() as int);
        let r = sorted.insert(p, x);
        assert(r == sort_backups_spec(s));
        assert forall|i: int, j: int| 0 <= i < j < r.len() implies !str_lt(r[i].created_at@, r[j].created_at@) by {
            if j < p {
                assert(r[i] == sorted[i] && r[j] == sorted[j]);
            } else if j == p {
                assert(r[i] == sorted[i]);
            } else if i < p {
                assert(r[i] == sorted[i] && r[j] == sorted[j - 1]);
                lemma_str_lt_order(sorted[i].created_at@, x.created_at@, sorted[j - 1].created_at@);
                lemma_str_lt_order(sorted[i].created_at@, sorted[p].created_at@, x.created_at@);
                lemma_str_lt_order(sorted[p].created_at@, sorted[j - 1].created_at@, x.created_at@);
                lemma_str_lt_order(sorted[j - 1].created_at@, sorted[p].created_at@, x.created_at@);
                lemma_str_lt_order(sorted[i].created_at@, sorted[j - 1].created_at@, x.created_at@);
            } else if i == p {
                assert(r[j] == sorted[j - 1]);
                lemma_str_lt_order(sorted[j - 1].created_at@, sorted[p].created_at@, x.created_at@);
                lemma_str_lt_order(x.created_at@, sorted[j - 1].created_at@, sorted[p].created_at@);
                lemma_str_lt_order(sorted[p].created_at@, sorted[j - 1].created_at@, x.created_at@);
            } else {
                assert(r[i] == sorted[i - 1] && r[j] == sorted[j - 1]);
            }
        }
        assert forall|i: int| 0 <= i < r.len() implies s.contains(#[trigger] r[i]) by {
            if i == p {
                assert(s[s.len() - 1] == x);
            } else {
                let y = if i < p { sorted[i] } else { sorted[i - 1] };
                assert(r[i] == y);
                assert(init.contains(y));
                let k = choose|k: int| 0 <= k < init.len() && init[k] == y;
                assert(s[k] == y);
            }
        }
        assert forall|i: int| 0 <= i < s.len() implies r.contains(#[trigger] s[i]) by {
            if i == s.len() - 1 {
                assert(r[p] == x);
            } else {
                assert(s[i] == init[i]);
                assert(sorted.contains(init[i]));
                let k = choose|k: int| 0 <= k < sorted.len() && sorted[k] == init[i];
                if k < p {
                    assert(r[k] == sorted[k]);
                } else {
                    assert(r[k + 1] == sorted[k]);
                }
            }
        }
        assert forall|k: int| 0 <= k < s.len() implies !str_lt(r[0].created_at@, #[trigger] s[k].created_at@) by {
            assert(r.contains(s[k]));
            let m = choose|m: int| 0 <= m < r.len() && r[m] == s[k];
            if m > 0 {
                assert(!str_lt(r[0].created_at@, r[m].created_at@));
            } else {
                lemma_str_lt_order(r[0].created_at@, r[0].created_at@, r[0].created_at@);
            }
        }
    }
}

/// No two entries of `v` are the same path.
pub open spec fn paths_distinct(v: Seq<Seq<char>>) -> bool {
    forall|i: int, j: int| 0 <= i < v.len() && 0 <= j < v.len() && i != j ==> !same_path(#[trigger] v[i], #[trigger] v[j])
}

proof fn lemma_steps_distinct(hist: Seq<Seq<Seq<char>>>, cs: Seq<Seq<char>>, k: int)
    requires
        dedup_steps(hist, cs),
        0 <= k <= cs.len(),
    ensures
        paths_distinct(hist[k]),
    decreases k,
{
    if k > 0 {
        lemma_steps_distinct(hist, cs, k - 1);
        let w = hist[k - 1];
        let v = hist[k];
        let c = cs[k - 1];
        assert(pushed_unless_listed(w, v, c));
        if v != w {
            assert forall|i: int, j: int| 0 <= i < v.len() && 0 <= j < v.len() && i != j implies !same_path(#[trigger] v[i], #[trigger] v[j]) by {
                if i == w.len() {
                    assert(v[j] == w[j]);
                    assert(!same_path(w[j], c));
                } else if j == w.len() {
                    assert(v[i] == w[i]);
                    assert(!same_path(w[i], c));
                } else {
                    assert(v[i] == w[i] && v[j] == w[j]);
                }
            }
        }
    }
}

proof fn lemma_steps_exact(hist: Seq<Seq<Seq<char>>>, cs: Seq<Seq<char>>, k: int)
    requires
        dedup_steps(hist, cs),
        all_portable(cs),
        0 <= k <= cs.len(),
    ensures
        hist[k] == dedup(cs.take(k)),
        all_portable(hist[k]),
    decreases k,
{
    if k == 0 {
        assert(cs.take(0).len() == 0);
    } else {
        lemma_steps_exact(hist, cs, k - 1);
        let w = hist[k - 1];
        let v = hist[k];
        let c = cs[k - 1];
        assert(pushed_unless_listed(w, v, c));
        assert(portable_plain_path(c));
        assert(cs.take(k).drop_last() =~= cs.take(k - 1));
        assert(cs.take(k).last() == c);
        if v == w {
            let i = choose|i: int| 0 <= i < w.len() && may_be_same_path(#[trigger] w[i], c);
            assert(portable_plain_path(w[i]));
            assert(same_path(w[i], c));
        }
        assert(all_portable(v)) by {
            assert forall|i: int| 0 <= i < v.len() implies portable_plain_path(#[trigger] v[i]) by {
                if i < w.len() {
                    assert(v[i] == w[i]);
                }
            }
        }
    }
}

/// The places looked at for cc-switch's database are listed without repeats: no two of
/// them are the same path, compared as `Path` compares paths.
pub proof fn candidates_without_repeats(v: Seq<Seq<char>>, srcs: Seq<(Seq<char>, Seq<Seq<char>>)>)
    requires
        candidates_match(v, srcs),
    ensures
        forall|i: int, j: int| 0 <= i < v.len() && 0 <= j < v.len() && i != j ==> !same_path(#[trigger] v[i], #[trigger] v[j]),
        v.no_duplicates(),
{
    let cs = choose|cs: Seq<Seq<char>>| sources_hold(v, cs, srcs);
    let hist = choose|hist: Seq<Seq<Seq<char>>>| #[trigger] dedup_steps(hist, cs) && hist.last() == v;
    lemma_steps_distinct(hist, cs, cs.len() as int);
    assert forall|i: int, j: int| 0 <= i < v.len() && 0 <= j < v.len() && i != j implies v[i] != v[j] by {
        assert(!same_path(v[i], v[j]));
    }
}

/// Where every path the sources name is portable and has no drive letter, the list of
/// places is exactly those paths in order, each kept the first time it appears.
pub proof fn candidates_exact_when_portable(
    v: Seq<Seq<char>>,
    cs: Seq<Seq<char>>,
    srcs: Seq<(Seq<char>, Seq<Seq<char>>)>,
)
    requires
        sources_hold(v, cs, srcs),
        all_portable(cs),
    ensures
        v == dedup(cs),
{
    let hist = choose|hist: Seq<Seq<Seq<char>>>| #[trigger] dedup_steps(hist, cs) && hist.last() == v;
    lemma_steps_exact(hist, cs, cs.len() as int);
    assert(cs.take(cs.len() as int) =~= cs);
}

proof fn lemma_slug_scan_keeps(s: Seq<char>, extra: bool)
    requires
        forall|i: int| 0 <= i < s.len() ==> slug_keeps(#[trigger] s[i], extra),
    ensures
        slug_scan(s, extra).0 == s,
    decreases s.len(),
{
    if s.len() > 0 {
        let init = s.drop_last();
        assert forall|i: int| 0 <= i < init.len() implies slug_keeps(#[trigger] init[i], extra) by {
            assert(init[i] == s[i]);
        }
        lemma_slug_scan_keeps(init, extra);
        assert(slug_keeps(s[s.len() - 1], extra));
        assert(init.push(s.last()) =~= s);
    }
}

/// A stem a file name normalises to is left as it is by normalising it again.
proof fn lemma_slug_fixed(stem: Seq<char>)
    requires
        stem.len() > 0,
        forall|i: int| 0 <= i < stem.len() ==> slug_char(#[trigger] stem[i], true),
        stem[0] != '-',
        stem.last() != '-',
    ensures
        slug(stem, true) == stem,
{
    assert forall|i: int| 0 <= i < stem.len() implies lower(#[trigger] stem[i]) == stem[i] by {
        assert(slug_char(stem[i], true));
    }
    assert(lower_seq(stem) =~= stem);
    assert forall|i: int| 0 <= i < stem.len() implies slug_keeps(#[trigger] stem[i], true) by {
        assert(slug_char(stem[i], true));
    }
    lemma_slug_scan_keeps(stem, true);
    assert(trim_start_char(stem, '-') == stem);
    assert(trim_end_char(stem, '-') == stem);
}

/// Re-saving a prompt keeps its file name: normalising a normalised file name changes
/// nothing, whatever the fallback.
pub proof fn prompt_filename_idempotent(input: Seq<char>, fallback: Seq<char>, fallback2: Seq<char>)
    ensures
        prompt_filename_spec(prompt_filename_spec(input, fallback), fallback2) == prompt_filename_spec(
            input,
            fallback,
        ),
{
    let f = prompt_filename_spec(input, fallback);
    prompt_filename_is_safe(input, fallback);
    let md = seq!['.', 'm', 'd'];
    let stem = f.subrange(0, f.len() - 3);
    assert(f =~= stem + md);
    assert forall|i: int| 0 <= i < stem.len() implies slug_char(#[trigger] stem[i], true) by {
        assert(stem[i] == f[i]);
    }
    assert(!is_ws(f[0]));
    assert(!is_ws(f.last()));
    assert(trim_start(f) == f);
    assert(trim_end(f) == f);
    assert(trim(f) == f);
    assert(f.subrange(f.len() - 3, f.len() as int) == md);
    assert(f.subrange(0, f.len() - 3) == stem);
    if stem.len() >= 3 {
        assert(stem.subrange(stem.len() - 3, stem.len() as int)[0] == stem[stem.len() - 3]);
        assert(slug_char(stem[stem.len() - 3], true));
        assert(stem.subrange(stem.len() - 3, stem.len() as int) != md);
    }
    assert(trim_end_str(stem, md) == stem);
    assert(trim_end_str(trim(f), md) == stem);
    assert(stem[0] == f[0]);
    assert(stem.last() == f[f.len() - 4]);
    lemma_slug_fixed(stem);
}

proof fn lemma_set_in2_other(c: Entries, t1: Seq<char>, t2: Seq<char>, key: Seq<char>, it: TomlItem, k: Seq<char>)
    requires
        k != t1,
    ensures
        lookup(set_in2(c, t1, t2, key, it), k) == lookup(c, k),
{
    match sub_table(c, t1) {
        Some(mid) => match sub_table(mid, t2) {
            Some(inner) => {
                lemma_lookup_update_sub_other(c, t1, update_sub(mid, t2, set_entry(inner, key, it)), k);
            },
            None => {},
        },
        None => {},
    }
}

proof fn lemma_defaults_other(es: Entries, k: Seq<char>)
    requires
        k != "model_reasoning_effort"@,
        k != "disable_response_storage"@,
    ensures
        lookup(defaults_spec(es), k) == lookup(es, k),
{
    let a = if lookup(es, "model_reasoning_effort"@) is None {
        set_entry(es, "model_reasoning_effort"@, TomlItem::Str("high"@))
    } else {
        es
    };
    lemma_lookup_set_other(es, "model_reasoning_effort"@, TomlItem::Str("high"@), k);
    lemma_lookup_set_other(a, "disable_response_storage"@, TomlItem::Bool(true), k);
}

/// Adding the defaults leaves every other setting as it was.
pub proof fn defaults_keep_other_settings(es: Entries, k: Seq<char>)
    requires
        k != "model_reasoning_effort"@,
        k != "disable_response_storage"@,
    ensures
        lookup(defaults_spec(es), k) == lookup(es, k),
{
    lemma_defaults_other(es, k);
}

/// A switch to a custom provider leaves every top-level setting it does not write as it
/// was: only `model_provider`, `model`, the two defaults and `model_providers` change.
pub proof fn switch_keeps_other_settings(
    es: Entries,
    name: Seq<char>,
    base_url: Seq<char>,
    model: Seq<char>,
    wire_api: Seq<char>,
    auth: bool,
    k: Seq<char>,
)
    requires
        switch_spec(es, name, base_url, model, wire_api, auth) is Some,
        k != "model_provider"@,
        k != "model"@,
        k != "model_reasoning_effort"@,
        k != "disable_response_storage"@,
        k != "model_providers"@,
    ensures
        lookup(switch_spec(es, name, base_url, model, wire_api, auth)->0, k) == lookup(es, k),
{
    let mp = "model_providers"@;
    let cu = "custom"@;
    let a0 = set_entry(es, "model_provider"@, TomlItem::Str("custom"@));
    let a1 = set_entry(a0, "model"@, TomlItem::Str(model));
    lemma_lookup_set_other(es, "model_provider"@, TomlItem::Str("custom"@), k);
    lemma_lookup_set_other(a0, "model"@, TomlItem::Str(model), k);
    let a = defaults_spec(a1);
    lemma_defaults_other(a1, k);
    let b = ensure_spec(a, mp)->0;
    lemma_lookup_set_other(a, mp, TomlItem::Table(Seq::empty()), k);
    assert(lookup(b, k) == lookup(a, k));
    let c = ensure_in_spec(b, mp, cu)->0;
    let mid2 = ensure_spec(sub_table(b, mp)->0, cu)->0;
    lemma_lookup_update_sub_other(b, mp, mid2, k);
    assert(lookup(c, k) == lookup(b, k));
    let c1 = set_in2(c, mp, cu, "name"@, TomlItem::Str(name));
    let c2 = set_in2(c1, mp, cu, "base_url"@, TomlItem::Str(base_url));
    let c3 = set_in2(c2, mp, cu, "wire_api"@, TomlItem::Str(wire_api));
    lemma_set_in2_other(c, mp, cu, "name"@, TomlItem::Str(name), k);
    lemma_set_in2_other(c1, mp, cu, "base_url"@, TomlItem::Str(base_url), k);
    lemma_set_in2_other(c2, mp, cu, "wire_api"@, TomlItem::Str(wire_api), k);
    lemma_set_in2_other(c3, mp, cu, "requires_openai_auth"@, TomlItem::Bool(auth), k);
}

/// Enabling an instruction file leaves every other setting as it was (a missing model is
/// the one addition).
pub proof fn instruction_keeps_other_settings(es: Entries, relative: Seq<char>, k: Seq<char>)
    requires
        k != "model"@,
        k != "model_instructions_file"@,
    ensures
        lookup(instruction_spec(es, relative), k) == lookup(es, k),
{
    let a = if lookup(es, "model"@) is None { set_entry(es, "model"@, TomlItem::Str("gpt-5.5"@)) } else { es };
    lemma_lookup_set_other(es, "model"@, TomlItem::Str("gpt-5.5"@), k);
    lemma_lookup_set_other(a, "model_instructions_file"@, TomlItem::Str(relative), k);
}

/// Disabling the instruction file leaves every other setting as it was.
pub proof fn disable_keeps_other_settings(es: Entries, k: Seq<char>)
    requires
        k != "model_instructions_file"@,
    ensures
        lookup(remove_entry(es, "model_instructions_file"@), k) == lookup(es, k),
{
    lemma_lookup_remove_other(es, "model_instructions_file"@, k);
}

/// A switch to the official provider leaves every top-level setting other than
/// `model_provider`, `model_providers` and `model` as it was.
pub proof fn official_keeps_other_settings(es: Entries, model: Option<Seq<char>>, k: Seq<char>)
    requires
        k != "model_provider"@,
        k != "model_providers"@,
        k != "model"@,
    ensures
        lookup(official_spec(es, model), k) == lookup(es, k),
{
    let mp = "model_providers"@;
    let a = remove_entry(es, "model_provider"@);
    lemma_lookup_remove_other(es, "model_provider"@, k);
    let b = match sub_table(a, mp) {
        Some(ps) => {
            let ps2 = remove_entry(ps, "custom"@);
            let c = update_sub(a, mp, ps2);
            lemma_lookup_update_sub_other(a, mp, ps2, k);
            lemma_lookup_remove_other(c, mp, k);
            if crate::toml::visible_keys(ps2).len() == 0 { remove_entry(c, mp) } else { c }
        },
        None => a,
    };
    assert(lookup(b, k) == lookup(es, k));
    match model {
        Some(m) => {
            lemma_lookup_set_other(b, "model"@, TomlItem::Str(trim(m)), k);
        },
        None => {},
    }
}

proof fn lemma_set_in2_mid_other(c: Entries, t1: Seq<char>, t2: Seq<char>, key: Seq<char>, it: TomlItem, p: Seq<char>)
    requires
        sub_table(c, t1) is Some,
        p != t2,
    ensures
        sub_table(set_in2(c, t1, t2, key, it), t1) is Some,
        lookup(sub_table(set_in2(c, t1, t2, key, it), t1)->0, p) == lookup(sub_table(c, t1)->0, p),
{
    let mid = sub_table(c, t1)->0;
    match sub_table(mid, t2) {
        Some(inner) => {
            let mid2 = update_sub(mid, t2, set_entry(inner, key, it));
            lemma_update_sub_lookup(c, t1, mid2);
            lemma_lookup_update_sub_other(mid, t2, set_entry(inner, key, it), p);
        },
        None => {},
    }
}

/// A switch to a custom provider leaves the other provider tables under `model_providers`
/// as they were.
pub proof fn switch_keeps_other_providers(
    es: Entries,
    name: Seq<char>,
    base_url: Seq<char>,
    model: Seq<char>,
    wire_api: Seq<char>,
    auth: bool,
    p: Seq<char>,
)
    requires
        switch_spec(es, name, base_url, model, wire_api, auth) is Some,
        sub_table(es, "model_providers"@) is Some,
        p != "custom"@,
    ensures
        sub_table(switch_spec(es, name, base_url, model, wire_api, auth)->0, "model_providers"@) matches Some(
            ps2,
        ) && lookup(ps2, p) == lookup(sub_table(es, "model_providers"@)->0, p),
{
    reveal_strlit("model_providers");
    reveal_strlit("model_provider");
    reveal_strlit("model");
    reveal_strlit("model_reasoning_effort");
    reveal_strlit("disable_response_storage");
    let mp = "model_providers"@;
    let cu = "custom"@;
    lemma_ne_len(mp, "model_provider"@);
    lemma_ne_len(mp, "model"@);
    lemma_ne_len(mp, "model_reasoning_effort"@);
    lemma_ne_len(mp, "disable_response_storage"@);
    let ps = sub_table(es, mp)->0;
    let a0 = set_entry(es, "model_provider"@, TomlItem::Str("custom"@));
    let a1 = set_entry(a0, "model"@, TomlItem::Str(model));
    lemma_lookup_set_other(es, "model_provider"@, TomlItem::Str("custom"@), mp);
    lemma_lookup_set_other(a0, "model"@, TomlItem::Str(model), mp);
    let a = defaults_spec(a1);
    lemma_defaults_other(a1, mp);
    assert(sub_table(a, mp) == Some(ps));
    let b = ensure_spec(a, mp)->0;
    assert(b == a);
    let mid2 = ensure_spec(ps, cu)->0;
    lemma_lookup_set_other(ps, cu, TomlItem::Table(Seq::empty()), p);
    assert(lookup(mid2, p) == lookup(ps, p));
    let c = ensure_in_spec(b, mp, cu)->0;
    lemma_update_sub_lookup(b, mp, mid2);
    let c1 = set_in2(c, mp, cu, "name"@, TomlItem::Str(name));
    let c2 = set_in2(c1, mp, cu, "base_url"@, TomlItem::Str(base_url));
    let c3 = set_in2(c2, mp, cu, "wire_api"@, TomlItem::Str(wire_api));
    lemma_set_in2_mid_other(c, mp, cu, "name"@, TomlItem::Str(name), p);
    lemma_set_in2_mid_other(c1, mp, cu, "base_url"@, TomlItem::Str(base_url), p);
    lemma_set_in2_mid_other(c2, mp, cu, "wire_api"@, TomlItem::Str(wire_api), p);
    lemma_set_in2_mid_other(c3, mp, cu, "requires_openai_auth"@, TomlItem::Bool(auth), p);
}

/// A session log rewritten for a provider, scanned again for that provider, has no
/// mismatched `session_meta` record and is not changed: each record the rewrite wrote back
/// reads back naming that provider, and every other line was already in order. (`first` is
/// what scanning and rewriting `text` gives, as `scan_rollout_text` states it; `second` is
/// the scan of its text.)
pub proof fn rescan_after_rewrite_is_clean(
    first: RolloutFileScan,
    second: RolloutFileScan,
    text: Seq<char>,
    target: Seq<char>,
    rewrite_again: bool,
)
    requires
        file_scan_matches(first, text, target, true),
        clean_segments(first.text@, target),
        file_scan_matches(second, first.text@, target, rewrite_again),
    ensures
        second.mismatched_session_meta == 0,
        !second.file_changed,
{
    lemma_clean_scan(first.text@, log_scan_start(), target, rewrite_again);
}

/// Sessions are pointed at the provider named for the sync when one is named (trimmed);
/// otherwise at the config's `model_provider` string (trimmed) when it is not blank; and
/// otherwise at `openai`, whatever other settings the config holds.
pub proof fn sync_target_provider(explicit: Option<Seq<char>>, es: Entries)
    ensures
        explicit matches Some(e) && trim(e).len() > 0 ==> crate::config::current_provider_spec(explicit, es) == trim(
            explicit->0,
        ),
        !(explicit matches Some(e) && trim(e).len() > 0) ==> (lookup(es, "model_provider"@) matches Some(
            TomlItem::Str(s),
        ) && trim(s).len() > 0 ==> crate::config::current_provider_spec(explicit, es) == trim(
            lookup(es, "model_provider"@)->0->Str_0,
        )),
        !(explicit matches Some(e) && trim(e).len() > 0) && !(lookup(es, "model_provider"@) matches Some(
            TomlItem::Str(s),
        ) && trim(s).len() > 0) ==> crate::config::current_provider_spec(explicit, es) == "openai"@,
{
}

/// A session is listed under its title (trimmed) when that is not blank, whatever its first
/// message or preview; under its first user message when only the title is blank; under its
/// preview when both are blank.
pub proof fn session_listed_by_title(p: SessionPreview, row: crate::sync::SessionRow, target: Seq<char>)
    requires
        crate::sync::preview_matches(p, row, target),
    ensures
        row.title matches Some(t) && trim(t@).len() > 0 ==> p.title@ == trim(row.title->0@),
        !(row.title matches Some(t) && trim(t@).len() > 0) && (row.first_message matches Some(m) && trim(
            m@,
        ).len() > 0) ==> p.title@ == trim(row.first_message->0@),
        !(row.title matches Some(t) && trim(t@).len() > 0) && !(row.first_message matches Some(m) && trim(
            m@,
        ).len() > 0) && (row.preview matches Some(v) && trim(v@).len() > 0) ==> p.title@ == trim(row.preview->0@),
{
}

/// A provider imported from cc-switch requires the OpenAI login unless its active provider
/// table sets `requires_openai_auth` to `false`: a missing key, a missing table or a value
/// that is not a boolean all leave it required.
pub proof fn imported_provider_requires_auth(
    r: Option<crate::store::SavedProvider>,
    id: Seq<char>,
    name: Seq<char>,
    api_key: Option<Seq<char>>,
    es: Entries,
    now_ms: int,
)
    requires
        crate::ccswitch::config_provider_matches(r, id, name, api_key, es, now_ms),
        r is Some,
    ensures
        ({
            let active = match lookup(es, "model_provider"@) {
                Some(TomlItem::Str(a)) => if trim(a).len() > 0 { trim(a) } else { "custom"@ },
                _ => "custom"@,
            };
            let setting = match lookup(es, "model_providers"@) {
                Some(TomlItem::Table(ps)) => match lookup(ps, active) {
                    Some(TomlItem::Table(t)) => lookup(t, "requires_openai_auth"@),
                    _ => None,
                },
                _ => None,
            };
            r->0.requires_openai_auth == (setting matches Some(TomlItem::Bool(b)) ==> b)
        }),
{
}

/// The trimmed template id `gpt5.5-unrestricted` (or a blank id) names the GPT-5.5
/// template, and `gpt5.4-unrestricted` the GPT-5.4 one.
pub proof fn template_ids(id: Seq<char>)
    ensures
        trim(id) == "gpt5.5-unrestricted"@ ==> crate::names::template_spec(id) == Some(
            crate::names::InstructionKind::Gpt55,
        ),
        trim(id).len() == 0 ==> crate::names::template_spec(id) == Some(crate::names::InstructionKind::Gpt55),
        trim(id) == "gpt5.4-unrestricted"@ ==> crate::names::template_spec(id) == Some(
            crate::names::InstructionKind::Gpt54,
        ),
{
    reveal_strlit("gpt5.5-unrestricted");
    reveal_strlit("gpt5.4-unrestricted");
    assert("gpt5.5-unrestricted"@[5] != "gpt5.4-unrestricted"@[5]);
    assert("gpt5.5-unrestricted"@ != "gpt5.4-unrestricted"@);
}

/// A `model_instructions_file` value is managed when it is one of the template file names,
/// bare, after `./`, or after any directory and a slash or backslash; and a managed value
/// always ends with one of those names.
pub proof fn managed_instruction_values(v: Seq<char>, dir: Seq<char>)
    ensures
        v == "gpt5.5-unrestricted.md"@ || v == "gpt5.4-unrestricted.md"@ ==> crate::names::is_managed_spec(v),
        crate::names::is_managed_spec(seq!['.', '/'] + "gpt5.5-unrestricted.md"@),
        crate::names::is_managed_spec(seq!['.', '/'] + "gpt5.4-unrestricted.md"@),
        crate::names::is_managed_spec(dir + seq!['/'] + "gpt5.5-unrestricted.md"@),
        crate::names::is_managed_spec(dir + seq!['\\'] + "gpt5.5-unrestricted.md"@),
        crate::names::is_managed_spec(dir + seq!['/'] + "gpt5.4-unrestricted.md"@),
        crate::names::is_managed_spec(dir + seq!['\\'] + "gpt5.4-unrestricted.md"@),
        crate::names::is_managed_spec(v) ==> ends_with(v, "gpt5.5-unrestricted.md"@) || ends_with(
            v,
            "gpt5.4-unrestricted.md"@,
        ),
{
    let a = "gpt5.5-unrestricted.md"@;
    let b = "gpt5.4-unrestricted.md"@;
    assert(crate::names::INSTRUCTION_FILENAME@ == a);
    assert(crate::names::INSTRUCTION_54_FILENAME@ == b);
    if v == a || v == b {
        lemma_managed_form(v, v);
    }
    lemma_managed_form(seq!['.', '/'] + a, a);
    lemma_managed_form(seq!['.', '/'] + b, b);
    lemma_managed_under(dir, seq!['/'], a);
    lemma_managed_under(dir, seq!['\\'], a);
    lemma_managed_under(dir, seq!['/'], b);
    lemma_managed_under(dir, seq!['\\'], b);
    lemma_managed_ends(v);
}

proof fn lemma_managed_form(v: Seq<char>, f: Seq<char>)
    requires
        f == crate::names::INSTRUCTION_FILENAME@ || f == crate::names::INSTRUCTION_54_FILENAME@,
        v == seq!['.', '/'] + f || v == f || ends_with(v, seq!['/'] + f) || ends_with(v, seq!['\\'] + f),
    ensures
        crate::names::is_managed_spec(v),
{
}

proof fn lemma_managed_under(dir: Seq<char>, sep: Seq<char>, f: Seq<char>)
    requires
        f == crate::names::INSTRUCTION_FILENAME@ || f == crate::names::INSTRUCTION_54_FILENAME@,
        sep == seq!['/'] || sep == seq!['\\'],
    ensures
        crate::names::is_managed_spec(dir + sep + f),
{
    lemma_ends_with_concat(dir, sep + f);
    assert(dir + sep + f =~= dir + (sep + f));
    lemma_managed_form(dir + sep + f, f);
}

proof fn lemma_managed_ends(v: Seq<char>)
    ensures
        crate::names::is_managed_spec(v) ==> ends_with(v, crate::names::INSTRUCTION_FILENAME@) || ends_with(
            v,
            crate::names::INSTRUCTION_54_FILENAME@,
        ),
{
    if crate::names::is_managed_spec(v) {
        let f = choose|f: Seq<char>|
            (f == crate::names::INSTRUCTION_FILENAME@ || f == crate::names::INSTRUCTION_54_FILENAME@) && {
                ||| v == seq!['.', '/'] + f
                ||| v == f
                ||| ends_with(v, seq!['/'] + f)
                ||| ends_with(v, seq!['\\'] + f)
            };
        lemma_ends_with_concat(seq!['.', '/'], f);
        lemma_ends_with_concat(Seq::empty(), f);
        assert(Seq::<char>::empty() + f =~= f);
        lemma_ends_with_suffix(v, seq!['/'], f);
        lemma_ends_with_suffix(v, seq!['\\'], f);
    }
}

/// A text ends with what was put after it.
proof fn lemma_ends_with_concat(a: Seq<char>, b: Seq<char>)
    ensures
        ends_with(a + b, b),
{
    assert((a + b).subrange((a + b).len() - b.len(), (a + b).len() as int) =~= b);
}

/// A text that ends with `c + f` ends with `f`.
proof fn lemma_ends_with_suffix(v: Seq<char>, c: Seq<char>, f: Seq<char>)
    ensures
        ends_with(v, c + f) ==> ends_with(v, f),
{
    if ends_with(v, c + f) {
        let k = v.len() - (c + f).len();
        assert(v.subrange(k, v.len() as int) == c + f);
        assert(v.subrange(v.len() - f.len(), v.len() as int) =~= (c + f).subrange(c.len() as int, (c + f).len() as int));
        assert((c + f).subrange(c.len() as int, (c + f).len() as int) =~= f);
    }
}

} // verus!
