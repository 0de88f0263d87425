//! Codex session logs (`rollout-*.jsonl`): recognising them, re-pointing their
//! `session_meta` records at a provider, and the counts the sync screen shows.

use vstd::prelude::*;
use crate::text::{chars_of, contains_exec, contains_seq, copy_range, copy_str, ends_with, ends_with_exec, lower_chars, lower_seq, opt_view, replace_char, replace_char_chars, starts_with, starts_with_exec, string_of, strings_view, trim, trim_chars};
use crate::json::{
    find_member, lemma_member_index_bounds, json_compact_spec, json_get, json_parse, json_parse_spec, json_str_member,
    json_keys_unique, json_similar, json_to_compact, member_index, model_get, set_member, str_member, JsonModel, JsonValue,
};

use crate::paths::{plain_component, portable_path};

verus! {

/// How many characters of line ending `seg` carries: `\r\n`, `\n` or none.
pub open spec fn ending_len(seg: Seq<char>) -> int {
    if ends_with(seg, seq!['\r', '\n']) {
        2
    } else if ends_with(seg, seq!['\n']) {
        1
    } else {
        0
    }
}

/// The line of a segment, without its ending.
pub open spec fn line_of(seg: Seq<char>) -> Seq<char> {
    seg.subrange(0, seg.len() - ending_len(seg))
}

/// The ending of a segment.
pub open spec fn ending_of(seg: Seq<char>) -> Seq<char> {
    seg.subrange(seg.len() - ending_len(seg), seg.len() as int)
}

fn ending_len_exec(v: &[char]) -> (k: usize)
    ensures
        k as int == ending_len(v@),
        k <= v@.len(),
{
    let crlf = vec!['\r', '\n'];
    let lf = vec!['\n'];
    assert(crlf@ =~= seq!['\r', '\n']);
    assert(lf@ =~= seq!['\n']);
    if ends_with_exec(v, crlf.as_slice()) {
        2
    } else if ends_with_exec(v, lf.as_slice()) {
        1
    } else {
        0
    }
}

/// Splits a segment of `split_inclusive('\n')` into its line and its ending.
pub fn split_line_ending(segment: &str) -> (r: (String, &'static str))
    ensures
        r.0@ == line_of(segment@),
        r.1@ == ending_of(segment@),
{
    let v = chars_of(segment);
    let k = ending_len_exec(v.as_slice());
    let n = v.len();
    let line = copy_range(v.as_slice(), 0, n - k);
    let ending: &'static str = if k == 2 { "\r\n" } else if k == 1 { "\n" } else { "" };
    proof {
        reveal_strlit("\r\n");
        reveal_strlit("\n");
        reveal_strlit("");
        if k == 2 {
            assert(v@.subrange(n - 2, n as int) =~= seq!['\r', '\n']);
        } else if k == 1 {
            assert(v@.subrange(n - 1, n as int) =~= seq!['\n']);
        }
        assert(ending@ =~= ending_of(segment@));
    }
    (string_of(line.as_slice()), ending)
}

/// The workspace path Codex recorded, with Windows verbatim prefixes (`\\?\`, `\\?\UNC\`)
/// turned back into ordinary paths; `None` for a blank value.
pub open spec fn workspace_spec(value: Seq<char>) -> Option<Seq<char>> {
    let t = trim(value);
    if t.len() == 0 {
        None
    } else if starts_with(lower_seq(t), seq!['\\', '\\', '?', '\\', 'u', 'n', 'c', '\\']) {
        Some(seq!['\\', '\\'] + replace_char(t.subrange(8, t.len() as int), '/', seq!['\\']))
    } else if starts_with(t, seq!['\\', '\\', '?', '\\']) {
        Some(replace_char(t.subrange(4, t.len() as int), '\\', seq!['/']))
    } else {
        Some(t)
    }
}

fn workspace_chars(v: &[char]) -> (r: Option<Vec<char>>)
    ensures
        match r {
            Some(x) => workspace_spec(v@) == Some(x@),
            None => workspace_spec(v@) is None,
        },
{
    let t = trim_chars(v);
    if t.len() == 0 {
        return None;
    }
    let low = lower_chars(t.as_slice());
    let unc = vec!['\\', '\\', '?', '\\', 'u', 'n', 'c', '\\'];
    let verbatim = vec!['\\', '\\', '?', '\\'];
    assert(unc@ =~= seq!['\\', '\\', '?', '\\', 'u', 'n', 'c', '\\']);
    assert(verbatim@ =~= seq!['\\', '\\', '?', '\\']);
    if starts_with_exec(low.as_slice(), unc.as_slice()) {
        assert(low@.len() == t@.len());
        let rest = copy_range(t.as_slice(), 8, t.len());
        let bs = vec!['\\'];
        let mut body = replace_char_chars(rest.as_slice(), '/', bs.as_slice());
        let mut out = vec!['\\', '\\'];
        let ghost b = body@;
        out.append(&mut body);
        assert(bs@ =~= seq!['\\']);
        assert(out@ =~= seq!['\\', '\\'] + b);
        Some(out)
    } else if starts_with_exec(t.as_slice(), verbatim.as_slice()) {
        let rest = copy_range(t.as_slice(), 4, t.len());
        let fs = vec!['/'];
        assert(fs@ =~= seq!['/']);
        Some(replace_char_chars(rest.as_slice(), '\\', fs.as_slice()))
    } else {
        Some(t)
    }
}

/// `normalize_workspace_path`: see `workspace_spec`.
pub fn normalize_workspace_path(value: &str) -> (r: Option<String>)
    ensures
        match r {
            Some(x) => workspace_spec(value@) == Some(x@),
            None => workspace_spec(value@) is None,
        },
{
    let v = chars_of(value);
    match workspace_chars(v.as_slice()) {
        Some(x) => Some(string_of(x.as_slice())),
        None => None,
    }
}

/// A session log's file name: `rollout-*.jsonl`.
pub open spec fn is_rollout_name(name: Seq<char>) -> bool {
    starts_with(name, "rollout-"@) && ends_with(name, ".jsonl"@)
}

/// Whether a file name is that of a session log.
pub fn is_rollout_file_name(name: &str) -> (r: bool)
    ensures
        r == is_rollout_name(name@),
{
    let v = chars_of(name);
    let p = chars_of("rollout-");
    let s = chars_of(".jsonl");
    starts_with_exec(v.as_slice(), p.as_slice()) && ends_with_exec(v.as_slice(), s.as_slice())
}

/// The text after the last slash of `path` (all of it when there is none).
pub open spec fn after_last_slash(path: Seq<char>) -> Seq<char>
    decreases path.len(),
{
    if path.len() == 0 {
        path
    } else if path.last() == '/' {
        Seq::empty()
    } else {
        after_last_slash(path.drop_last()).push(path.last())
    }
}

/// `Path::file_name` of a path, as text: the path's final component, a part of its text.
/// Which characters separate components, and which leading parts form a prefix, is the
/// platform's choice and is not stated in general; for a portable path (see
/// `portable_path`) whose text after the last slash is a plain component, that component is
/// the file name on every platform.
#[verifier::external_body]
fn path_file_name(path: &str) -> (r: Option<String>)
    ensures
        r matches Some(n) ==> contains_seq(path@, n@),
        portable_path(path@) && plain_component(after_last_slash(path@)) ==> opt_view(r) == Some(
            after_last_slash(path@),
        ),
{
    std::path::Path::new(path).file_name().and_then(|n| n.to_str()).map(|n| n.to_string())
}

/// Whether a path names a session log: its file name is `rollout-*.jsonl`.
pub fn is_rollout_file(path: &str) -> (r: bool)
    ensures
        r ==> exists|n: Seq<char>| is_rollout_name(n) && contains_seq(path@, n),
        portable_path(path@) && plain_component(after_last_slash(path@)) ==> r == is_rollout_name(
            after_last_slash(path@),
        ),
{
    match path_file_name(path) {
        Some(n) => is_rollout_file_name(n.as_str()),
        None => false,
    }
}


/// Length of the first `split_inclusive('\n')` segment of `s`.
pub open spec fn seg_len(s: Seq<char>) -> int
    decreases s.len(),
{
    if s.len() == 0 {
        0
    } else if s[0] == '\n' {
        1
    } else {
        1 + seg_len(s.drop_first())
    }
}

/// The first segment of a non-empty text is non-empty and no longer than the text.
pub proof fn lemma_seg_len(s: Seq<char>)
    ensures
        0 <= seg_len(s) <= s.len(),
        s.len() > 0 ==> seg_len(s) >= 1,
    decreases s.len(),
{
    if s.len() > 0 {
        lemma_seg_len(s.drop_first());
    }
}

/// What scanning a session log has found so far.
pub struct LogScan {
    pub meta_count: nat,
    pub mismatched: nat,
    pub has_meta: bool,
    pub changed: bool,
    pub first_id: Option<Seq<char>>,
    pub first_cwd: Option<Seq<char>>,
    pub out: Seq<char>,
}

/// The scan before the first line.
pub open spec fn log_scan_start() -> LogScan {
    LogScan {
        meta_count: 0,
        mismatched: 0,
        has_meta: false,
        changed: false,
        first_id: None,
        first_cwd: None,
        out: Seq::empty(),
    }
}

/// `rec` with its `payload` member replaced by an object with these members.
pub open spec fn with_payload(rec: JsonModel, payload: Seq<(Seq<char>, JsonModel)>) -> JsonModel {
    match rec {
        JsonModel::Object(ms) => JsonModel::Object(set_member(ms, "payload"@, JsonModel::Object(payload))),
        _ => rec,
    }
}

/// The line written back for a `session_meta` record whose provider is not `target`.
pub open spec fn retargeted_line(rec: JsonModel, payload: Seq<(Seq<char>, JsonModel)>, target: Seq<char>) -> Seq<char> {
    json_compact_spec(with_payload(rec, set_member(payload, "model_provider"@, JsonModel::Str(target))))
}

/// One line of a session log and its line ending, given what the line parses to as JSON
/// (`None` where it does not parse). A non-blank line that parses as a record of type
/// `session_meta` is counted; the first thread id and working directory are noted; when its
/// payload's `model_provider` is not `target` it counts as mismatched and, when rewriting,
/// the line is replaced by the record with the provider set. Every other line is kept.
pub open spec fn parsed_line_step(
    st: LogScan,
    line: Seq<char>,
    ending: Seq<char>,
    parsed: Option<JsonModel>,
    target: Seq<char>,
    rewrite: bool,
) -> LogScan {
    let kept = LogScan { out: st.out + line + ending, ..st };
    if trim(line).len() > 0 && parsed is Some && str_member(parsed->0, "type"@) == Some(
        "session_meta"@,
    ) {
        let rec = parsed->0;
        match model_get(rec, "payload"@) {
            Some(JsonModel::Object(p)) => {
                let pm = JsonModel::Object(p);
                let id = if st.first_id is None { str_member(pm, "id"@) } else { st.first_id };
                let cwd = if st.first_cwd is None {
                    match str_member(pm, "cwd"@) {
                        Some(c) => workspace_spec(c),
                        None => None,
                    }
                } else {
                    st.first_cwd
                };
                if str_member(pm, "model_provider"@) != Some(target) {
                    let new_line = if rewrite { retargeted_line(rec, p, target) } else { line };
                    LogScan {
                        meta_count: st.meta_count + 1,
                        mismatched: st.mismatched + 1,
                        has_meta: true,
                        changed: true,
                        first_id: id,
                        first_cwd: cwd,
                        out: st.out + new_line + ending,
                    }
                } else {
                    LogScan {
                        meta_count: st.meta_count + 1,
                        has_meta: true,
                        first_id: id,
                        first_cwd: cwd,
                        ..kept
                    }
                }
            },
            _ => LogScan { meta_count: st.meta_count + 1, has_meta: true, ..kept },
        }
    } else {
        kept
    }
}

/// One segment of a session log: its line, parsed as JSON, and its line ending (see
/// `parsed_line_step`).
pub open spec fn line_step(st: LogScan, seg: Seq<char>, target: Seq<char>, rewrite: bool) -> LogScan {
    parsed_line_step(st, line_of(seg), ending_of(seg), json_parse_spec(line_of(seg)), target, rewrite)
}

/// Whether a line, read as `parsed`, is a `session_meta` record whose payload is an object
/// that names another provider than `target`: the lines a scan counts as mismatched.
pub open spec fn line_mismatch(line: Seq<char>, parsed: Option<JsonModel>, target: Seq<char>) -> bool {
    &&& trim(line).len() > 0
    &&& parsed is Some
    &&& str_member(parsed->0, "type"@) == Some("session_meta"@)
    &&& model_get(parsed->0, "payload"@) matches Some(JsonModel::Object(p))
    &&& str_member(JsonModel::Object(p), "model_provider"@) != Some(target)
}

/// The line a scan writes in place of `line`: the retargeted record for a mismatched line
/// when rewriting, else the line itself.
pub open spec fn written_line(line: Seq<char>, parsed: Option<JsonModel>, target: Seq<char>, rewrite: bool) -> Seq<char> {
    if rewrite && line_mismatch(line, parsed, target) {
        retargeted_line(parsed->0, model_get(parsed->0, "payload"@)->Some_0->Object_0, target)
    } else {
        line
    }
}

/// Whether a segment's line is mismatched (see `line_mismatch`).
pub open spec fn seg_mismatch(seg: Seq<char>, target: Seq<char>) -> bool {
    line_mismatch(line_of(seg), json_parse_spec(line_of(seg)), target)
}

/// No segment of `s` is mismatched against `target`.
pub open spec fn clean_segments(s: Seq<char>, target: Seq<char>) -> bool
    decreases s.len(),
{
    if s.len() == 0 {
        true
    } else {
        proof {
            lemma_seg_len(s);
        }
        !seg_mismatch(s.subrange(0, seg_len(s)), target) && clean_segments(
            s.subrange(seg_len(s), s.len() as int),
            target,
        )
    }
}

/// No line feed in `s` but, possibly, its last character.
pub open spec fn one_segment(s: Seq<char>) -> bool {
    forall|m: int| 0 <= m < s.len() - 1 ==> s[m] != '\n'
}

/// The scan of the segments of `s` (`split_inclusive('\n')`), starting from `st`.
pub open spec fn scan_segments(s: Seq<char>, st: LogScan, target: Seq<char>, rewrite: bool) -> LogScan
    decreases s.len(),
{
    if s.len() == 0 {
        st
    } else {
        proof {
            lemma_seg_len(s);
        }
        let k = seg_len(s);
        scan_segments(
            s.subrange(k, s.len() as int),
            line_step(st, s.subrange(0, k), target, rewrite),
            target,
            rewrite,
        )
    }
}

/// What one session log holds, and its text after the rewrite.
#[derive(Clone, Debug)]
pub struct RolloutFileScan {
    pub session_meta_count: usize,
    pub mismatched_session_meta: usize,
    pub file_has_meta: bool,
    pub file_changed: bool,
    pub has_user_event: bool,
    pub first_thread_id: Option<String>,
    pub first_cwd: Option<String>,
    pub text: String,
}

/// The state of a scan of one session log (see `LogScan`), with the text written so far.
pub struct ScanState {
    pub meta_count: usize,
    pub mismatched: usize,
    pub has_meta: bool,
    pub changed: bool,
    pub first_id: Option<String>,
    pub first_cwd: Option<String>,
    pub out: Vec<char>,
}

pub open spec fn state_model(st: ScanState) -> LogScan {
    LogScan {
        meta_count: st.meta_count as nat,
        mismatched: st.mismatched as nat,
        has_meta: st.has_meta,
        changed: st.changed,
        first_id: opt_view(st.first_id),
        first_cwd: opt_view(st.first_cwd),
        out: st.out@,
    }
}

fn push_chars(out: &mut Vec<char>, s: &[char])
    ensures
        final(out)@ == old(out)@ + s@,
{
    for i in 0..s.len()
        invariant
            out@ == old(out)@ + s@.take(i as int),
    {
        out.push(s[i]);
        assert(s@.take(i + 1) =~= s@.take(i as int).push(s@[i as int]));
    }
    assert(s@.take(s@.len() as int) =~= s@);
}

/// `members` with `key` set to `val`, in place when present, else appended.
pub fn set_member_in(members: &mut Vec<(String, JsonValue)>, key: &str, val: JsonValue)
    ensures
        JsonValue::Object(*final(members))@ == JsonModel::Object(
            set_member(JsonValue::Object(*old(members))@->Object_0, key@, val@),
        ),
{
    let ghost before = JsonValue::Object(*members)@->Object_0;
    let k = copy_str(key);
    match find_member(members, key) {
        Some(i) => {
            let _ = members.remove(i);
            members.insert(i, (k, val));
            assert(JsonValue::Object(*members)@->Object_0 =~= before.update(i as int, (key@, val@)));
        },
        None => {
            members.push((k, val));
            assert(JsonValue::Object(*members)@->Object_0 =~= before.push((key@, val@)));
        },
    }
}

/// The record with its payload's `model_provider` set to `target`.
fn retarget_record(rec: JsonValue, target: &str) -> (r: JsonValue)
    requires
        rec@ is Object,
        model_get(rec@, "payload"@) matches Some(JsonModel::Object(_)),
    ensures
        r@ == with_payload(
            rec@,
            set_member(model_get(rec@, "payload"@)->Some_0->Object_0, "model_provider"@, JsonModel::Str(target@)),
        ),
{
    let ghost rm = rec@;
    match rec {
        JsonValue::Object(mut members) => {
            let ghost ms = rm->Object_0;
            proof { reveal_strlit("payload"); }
            match find_member(&members, "payload") {
                Some(i) => {
                    proof { lemma_member_index_bounds(ms, "payload"@, ms.len() as int); }
                    let (k, pv) = members.remove(i);
                    assert(ms[i as int] == (k@, pv@));
                    assert(k@ == "payload"@);
                    match pv {
                        JsonValue::Object(mut pm) => {
                            let ghost pbefore = JsonValue::Object(pm)@->Object_0;
                            set_member_in(&mut pm, "model_provider", JsonValue::Str(copy_str(target)));
                            let ghost pafter = JsonValue::Object(pm)@;
                            members.insert(i, (k, JsonValue::Object(pm)));
                            assert(JsonValue::Object(members)@->Object_0 =~= ms.update(i as int, ("payload"@, pafter)));
                            JsonValue::Object(members)
                        },
                        _ => {
                            members.insert(i, (k, pv));
                            JsonValue::Object(members)
                        },
                    }
                },
                None => JsonValue::Object(members),
            }
        },
        _ => rec,
    }
}


fn str_view_eq(a: &String, b: &str) -> (r: bool)
    ensures
        r == (a@ == b@),
{
    crate::text::str_eq(a.as_str(), b)
}

/// A parsed value's model, if there is one.
pub open spec fn opt_model(p: Option<JsonValue>) -> Option<JsonModel> {
    match p {
        Some(v) => Some(v@),
        None => None,
    }
}

/// Scans one line of a session log and its line ending into `st`, given what the line
/// parsed to as JSON (see `parsed_line_step`).
pub fn scan_parsed_line(
    st: &mut ScanState,
    line: &[char],
    ending: &[char],
    parsed: Option<JsonValue>,
    target: &str,
    rewrite: bool,
)
    requires
        old(st).meta_count < usize::MAX,
        old(st).mismatched <= old(st).meta_count,
    ensures
        state_model(*final(st)) == parsed_line_step(state_model(*old(st)), line@, ending@, opt_model(parsed), target@, rewrite),
        final(st).meta_count <= old(st).meta_count + 1,
        final(st).mismatched <= final(st).meta_count,
        final(st).out@ == old(st).out@ + written_line(line@, opt_model(parsed), target@, rewrite) + ending@,
        rewrite && line_mismatch(line@, opt_model(parsed), target@) ==> ({
            let c = written_line(line@, opt_model(parsed), target@, rewrite);
            &&& !c.contains('\n')
            &&& !c.contains('\r')
            &&& (parsed matches Some(v) && json_keys_unique(v@) ==> !line_mismatch(c, json_parse_spec(c), target@))
        }),
{
    let ghost st0 = state_model(*st);
    let ghost pm = parsed;
    let t = trim_chars(line);
    proof {
        reveal_strlit("type");
        reveal_strlit("session_meta");
        reveal_strlit("payload");
        reveal_strlit("id");
        reveal_strlit("cwd");
        reveal_strlit("model_provider");
    }
    if t.len() > 0 {
        if let Some(rec) = parsed {
            let is_meta = match json_str_member(&rec, "type") {
                Some(ty) => str_view_eq(ty, "session_meta"),
                None => false,
            };
            if is_meta {
                st.has_meta = true;
                st.meta_count = st.meta_count + 1;
                let mut mismatch = false;
                match json_get(&rec, "payload") {
                    Some(payload) => {
                        match payload {
                            JsonValue::Object(_) => {
                                if st.first_id.is_none() {
                                    st.first_id = match json_str_member(payload, "id") {
                                        Some(id) => Some(copy_str(id.as_str())),
                                        None => None,
                                    };
                                }
                                if st.first_cwd.is_none() {
                                    st.first_cwd = match json_str_member(payload, "cwd") {
                                        Some(c) => normalize_workspace_path(c.as_str()),
                                        None => None,
                                    };
                                }
                                let same = match json_str_member(payload, "model_provider") {
                                    Some(p) => str_view_eq(p, target),
                                    None => false,
                                };
                                if !same {
                                    st.mismatched = st.mismatched + 1;
                                    st.changed = true;
                                    mismatch = true;
                                }
                            },
                            _ => {},
                        }
                    },
                    None => {},
                }
                if mismatch && rewrite {
                    let ghost rm = rec@;
                    let updated = retarget_record(rec, target);
                    let text = match json_to_compact(&updated) {
                        Ok(t) => t,
                        Err(_) => {
                            proof {
                                assert(false);
                            }
                            String::new()
                        },
                    };
                    let tv = chars_of(text.as_str());
                    push_chars(&mut st.out, tv.as_slice());
                    assert(tv@ == retargeted_line(rm, model_get(rm, "payload"@)->Some_0->Object_0, target@));
                    proof {
                        let p = model_get(rm, "payload"@)->Some_0->Object_0;
                        if json_keys_unique(rm) {
                            lemma_retarget_unique(rm, p, target@);
                            lemma_retarget_rereads(rm, p, target@);
                        }
                    }
                } else {
                    push_chars(&mut st.out, line);
                }
                push_chars(&mut st.out, ending);
                assert(state_model(*st) == parsed_line_step(st0, line@, ending@, opt_model(pm), target@, rewrite));
                proof { lemma_parsed_step(st0, line@, ending@, opt_model(pm), target@, rewrite); }
                return;
            }
        }
    }
    push_chars(&mut st.out, line);
    push_chars(&mut st.out, ending);
    assert(state_model(*st) =~= parsed_line_step(st0, line@, ending@, opt_model(pm), target@, rewrite));
    proof { lemma_parsed_step(st0, line@, ending@, opt_model(pm), target@, rewrite); }
}


/// Scans one segment into `st`.
fn scan_line(st: &mut ScanState, seg: &[char], target: &str, rewrite: bool)
    requires
        old(st).meta_count < usize::MAX,
        old(st).mismatched <= old(st).meta_count,
    ensures
        state_model(*final(st)) == line_step(state_model(*old(st)), seg@, target@, rewrite),
        final(st).meta_count <= old(st).meta_count + 1,
        final(st).mismatched <= final(st).meta_count,
        final(st).out@.len() >= old(st).out@.len(),
        ({
            let o = final(st).out@.subrange(old(st).out@.len() as int, final(st).out@.len() as int);
            &&& final(st).out@ == old(st).out@ + o
            &&& (rewrite && one_segment(seg@) ==> clean_segments(o, target@))
            &&& (one_segment(seg@) && seg@.len() > 0 && seg@.last() == '\n' ==> o.len() > 0 && o.last() == '\n')
        }),
{
    let k = ending_len_exec(seg);
    let n = seg.len();
    let line = copy_range(seg, 0, n - k);
    let ending = copy_range(seg, n - k, n);
    assert(line@ == line_of(seg@));
    assert(ending@ == ending_of(seg@));
    let t = trim_chars(line.as_slice());
    let parsed = if t.len() > 0 {
        let line_s = string_of(line.as_slice());
        match json_parse(line_s.as_str()) {
            Ok(rec) => Some(rec),
            Err(_) => None,
        }
    } else {
        None
    };
    let ghost pm = opt_model(parsed);
    let ghost unique = pm matches Some(m) && json_keys_unique(m);
    assert(pm is Some ==> unique);
    assert(trim(line@).len() > 0 ==> pm == json_parse_spec(line@));
    let ghost old_out = st.out@;
    scan_parsed_line(st, line.as_slice(), ending.as_slice(), parsed, target, rewrite);
    proof {
        let w = written_line(line@, pm, target@, rewrite);
        let o = w + ending@;
        assert(st.out@.subrange(old_out.len() as int, st.out@.len() as int) =~= o);
        assert(line_mismatch(line@, pm, target@) == line_mismatch(line@, json_parse_spec(line@), target@));
        if rewrite && line_mismatch(line@, pm, target@) {
            lemma_reending(w, seg@);
            lemma_clean_single(o, target@);
        } else {
            crate::laws::line_and_ending_rebuild(seg@);
            assert(o == seg@);
            if one_segment(seg@) {
                lemma_clean_single(o, target@);
            }
        }
    }
}

proof fn lemma_seg_len_at(s: Seq<char>, p: int)
    requires
        0 <= p <= s.len(),
        forall|m: int| 0 <= m < p ==> s[m] != '\n',
        p < s.len() ==> s[p] == '\n',
    ensures
        seg_len(s) == if p < s.len() { p + 1 } else { p },
    decreases p,
{
    if p > 0 {
        assert forall|m: int| 0 <= m < p - 1 implies s.drop_first()[m] != '\n' by {
            assert(s.drop_first()[m] == s[m + 1]);
        }
        lemma_seg_len_at(s.drop_first(), p - 1);
    }
}

/// The contents of one session log: counts of its `session_meta` records, the first thread id
/// and working directory, whether a user event occurs, and (when `rewrite`) its text with
/// every mismatched record pointed at `target`.
pub open spec fn file_scan_matches(f: RolloutFileScan, text: Seq<char>, target: Seq<char>, rewrite: bool) -> bool {
    let m = scan_segments(text, log_scan_start(), target, rewrite);
    &&& f.session_meta_count == m.meta_count
    &&& f.mismatched_session_meta == m.mismatched
    &&& f.file_has_meta == m.has_meta
    &&& f.file_changed == m.changed
    &&& opt_view(f.first_thread_id) == m.first_id
    &&& opt_view(f.first_cwd) == m.first_cwd
    &&& f.text@ == m.out
    &&& f.has_user_event == (contains_seq(text, "\"user_message\""@) || contains_seq(
        text,
        "\"user_input\""@,
    ))
}

/// Scans the text of one session log (see `file_scan_matches`).
pub fn scan_rollout_text(text: &str, target: &str, rewrite: bool) -> (r: RolloutFileScan)
    ensures
        file_scan_matches(r, text@, target@, rewrite),
        rewrite ==> clean_segments(r.text@, target@),
        rewrite ==> forall|b: bool| #![trigger scan_segments(r.text@, log_scan_start(), target@, b)]
            scan_segments(r.text@, log_scan_start(), target@, b).mismatched == 0 && !scan_segments(
                r.text@,
                log_scan_start(),
                target@,
                b,
            ).changed,
{
    let v = chars_of(text);
    let n = v.len();
    let mut st = ScanState {
        meta_count: 0,
        mismatched: 0,
        has_meta: false,
        changed: false,
        first_id: None,
        first_cwd: None,
        out: Vec::new(),
    };
    assert(v@.subrange(0, n as int) =~= v@);
    assert(state_model(st) =~= log_scan_start());
    let mut i: usize = 0;
    while i < n
        invariant
            n == v@.len(),
            i <= n,
            v@ == text@,
            scan_segments(v@, log_scan_start(), target@, rewrite) == scan_segments(
                v@.subrange(i as int, n as int),
                state_model(st),
                target@,
                rewrite,
            ),
            st.meta_count <= i,
            st.mismatched <= st.meta_count,
            rewrite ==> clean_segments(st.out@, target@),
            i < n ==> st.out@.len() == 0 || st.out@.last() == '\n',
        decreases n - i,
    {
        let mut j = i;
        while j < n && v[j] != '\n'
            invariant
                i <= j <= n,
                n == v@.len(),
                forall|m: int| i <= m < j ==> v@[m] != '\n',
            decreases n - j,
        {
            j = j + 1;
        }
        let ghost rest = v@.subrange(i as int, n as int);
        proof {
            assert forall|m: int| 0 <= m < j - i implies rest[m] != '\n' by {
                assert(rest[m] == v@[i + m]);
            }
            if j < n {
                assert(rest[j - i] == v@[j as int]);
            }
            lemma_seg_len_at(rest, j - i);
        }
        if j < n {
            j = j + 1;
        }
        assert(seg_len(rest) == j - i);
        let seg = copy_range(v.as_slice(), i, j);
        let ghost before = state_model(st);
        let ghost out_before = st.out@;
        assert(one_segment(seg@)) by {
            assert forall|m: int| 0 <= m < seg@.len() - 1 implies seg@[m] != '\n' by {
                assert(seg@[m] == v@[i + m]);
            }
        }
        assert(j < n ==> seg@.len() > 0 && seg@.last() == '\n') by {
            if j < n {
                assert(seg@.last() == v@[j - 1]);
            }
        }
        scan_line(&mut st, seg.as_slice(), target, rewrite);
        proof {
            let o = st.out@.subrange(out_before.len() as int, st.out@.len() as int);
            lemma_clean_concat(out_before, o, target@);
            if o.len() > 0 {
                assert(st.out@.last() == o.last());
            }
        }
        assert(rest.subrange(0, j - i) =~= seg@);
        assert(rest.subrange(j - i, rest.len() as int) =~= v@.subrange(j as int, n as int));
        i = j;
    }
    let quote_user_message = chars_of("\"user_message\"");
    let quote_user_input = chars_of("\"user_input\"");
    let has_user_event = contains_exec(v.as_slice(), quote_user_message.as_slice())
        || contains_exec(v.as_slice(), quote_user_input.as_slice());
    assert(v@.subrange(n as int, n as int) =~= Seq::<char>::empty());
    let out = string_of(st.out.as_slice());
    proof {
        if rewrite {
            assert forall|b: bool| #![trigger scan_segments(out@, log_scan_start(), target@, b)]
                scan_segments(out@, log_scan_start(), target@, b).mismatched == 0 && !scan_segments(
                    out@,
                    log_scan_start(),
                    target@,
                    b,
                ).changed by {
                lemma_clean_scan(out@, log_scan_start(), target@, b);
            }
        }
    }
    RolloutFileScan {
        session_meta_count: st.meta_count,
        mismatched_session_meta: st.mismatched,
        file_has_meta: st.has_meta,
        file_changed: st.changed,
        has_user_event,
        first_thread_id: st.first_id,
        first_cwd: st.first_cwd,
        text: out,
    }
}


/// The note for a session log that is locked or not readable.
pub fn skipped_log_warning(path: &str) -> (r: String)
    ensures
        r@ == "跳过被占用/无权限会话文件: "@ + path@,
{
    crate::text::concat_str("跳过被占用/无权限会话文件: ", path)
}

/// The note for a sessions directory that exists but cannot be listed.
pub fn unreadable_dir_warning(path: &str) -> (r: String)
    ensures
        r@ == "无法读取目录: "@ + path@,
{
    crate::text::concat_str("无法读取目录: ", path)
}

/// The tally of all session logs under a Codex directory.
#[derive(Clone, Debug)]
pub struct RolloutScan {
    pub rollout_files: usize,
    pub session_meta_count: usize,
    pub mismatched_rollouts: usize,
    pub mismatched_session_meta: usize,
    /// Each rewritten log's path and new text.
    pub changed_files: Vec<(String, String)>,
    /// Thread ids whose logs hold a user event, each once.
    pub thread_ids_with_user_events: Vec<String>,
    /// Working directory per thread id, each id once.
    pub cwd_by_thread_id: Vec<(String, String)>,
    pub warnings: Vec<String>,
}

pub open spec fn pair_keys(v: Seq<(String, String)>) -> Seq<Seq<char>> {
    v.map_values(|p: (String, String)| p.0@)
}

/// The map that a list of pairs denotes, later pairs winning.
pub open spec fn pairs_map(v: Seq<(String, String)>) -> Map<Seq<char>, Seq<char>>
    decreases v.len(),
{
    if v.len() == 0 {
        Map::empty()
    } else {
        pairs_map(v.drop_last()).insert(v.last().0@, v.last().1@)
    }
}

/// The scan's sets hold each key once.
pub open spec fn rollout_scan_wf(scan: RolloutScan) -> bool {
    &&& strings_view(scan.thread_ids_with_user_events@).no_duplicates()
    &&& pair_keys(scan.cwd_by_thread_id@).no_duplicates()
}

/// An empty tally for `files` session logs.
pub fn new_rollout_scan(files: usize) -> (r: RolloutScan)
    ensures
        rollout_scan_wf(r),
        r.rollout_files == files,
        r.session_meta_count == 0,
        r.mismatched_rollouts == 0,
        r.mismatched_session_meta == 0,
        r.changed_files@.len() == 0,
        r.thread_ids_with_user_events@.len() == 0,
        r.cwd_by_thread_id@.len() == 0,
        r.warnings@.len() == 0,
{
    let r = RolloutScan {
        rollout_files: files,
        session_meta_count: 0,
        mismatched_rollouts: 0,
        mismatched_session_meta: 0,
        changed_files: Vec::new(),
        thread_ids_with_user_events: Vec::new(),
        cwd_by_thread_id: Vec::new(),
        warnings: Vec::new(),
    };
    assert(strings_view(r.thread_ids_with_user_events@) =~= Seq::empty());
    assert(pair_keys(r.cwd_by_thread_id@) =~= Seq::empty());
    r
}

proof fn lemma_pairs_map_update(v: Seq<(String, String)>, i: int, p: (String, String))
    requires
        0 <= i < v.len(),
        v[i].0@ == p.0@,
        pair_keys(v).no_duplicates(),
    ensures
        pairs_map(v.update(i, p)) == pairs_map(v).insert(p.0@, p.1@),
        pair_keys(v.update(i, p)) == pair_keys(v),
    decreases v.len(),
{
    assert(pair_keys(v.update(i, p)) =~= pair_keys(v));
    if i == v.len() - 1 {
        assert(v.update(i, p).drop_last() =~= v.drop_last());
        assert(pairs_map(v.update(i, p)) =~= pairs_map(v).insert(p.0@, p.1@));
    } else {
        let w = v.drop_last();
        assert(pair_keys(w) =~= pair_keys(v).drop_last());
        lemma_pairs_map_update(w, i, p);
        assert(v.update(i, p).drop_last() =~= w.update(i, p));
        assert(pair_keys(v)[i] != pair_keys(v)[v.len() - 1]);
        assert(pairs_map(v.update(i, p)) =~= pairs_map(v).insert(p.0@, p.1@));
    }
}

proof fn lemma_push_to_set(s: Seq<Seq<char>>, a: Seq<char>)
    ensures
        s.push(a).to_set() == s.to_set().insert(a),
{
    assert forall|x: Seq<char>| s.push(a).to_set().contains(x) == s.to_set().insert(a).contains(x) by {
        if s.push(a).contains(x) {
            let j = choose|j: int| 0 <= j < s.push(a).len() && s.push(a)[j] == x;
            if j < s.len() {
                assert(s[j] == x);
            }
        }
        if s.contains(x) {
            let j = choose|j: int| 0 <= j < s.len() && s[j] == x;
            assert(s.push(a)[j] == x);
        }
        if x == a {
            assert(s.push(a)[s.len() as int] == a);
        }
    }
    assert(s.push(a).to_set() =~= s.to_set().insert(a));
}

/// Records `id` in a list of ids unless it is there already.
fn insert_id(ids: &mut Vec<String>, id: &String)
    requires
        strings_view(old(ids)@).no_duplicates(),
    ensures
        strings_view(final(ids)@).no_duplicates(),
        strings_view(final(ids)@).to_set() == strings_view(old(ids)@).to_set().insert(id@),
{
    let ghost before = strings_view(ids@);
    let mut i: usize = 0;
    while i < ids.len()
        invariant
            i <= ids@.len(),
            ids@ == old(ids)@,
            before == strings_view(old(ids)@),
            before.no_duplicates(),
            forall|k: int| 0 <= k < i ==> ids@[k]@ != id@,
        decreases ids@.len() - i,
    {
        if crate::text::str_eq(ids[i].as_str(), id.as_str()) {
            assert(before[i as int] == id@);
            assert(before.to_set().contains(id@));
            assert(before.to_set() =~= before.to_set().insert(id@));
            return;
        }
        i = i + 1;
    }
    ids.push(copy_str(id.as_str()));
    assert(strings_view(ids@) =~= before.push(id@));
    proof { lemma_push_to_set(before, id@); }
    assert forall|k: int| 0 <= k < before.len() implies before[k] != id@ by {}
}

/// Sets the working directory recorded for `id`.
fn insert_cwd(m: &mut Vec<(String, String)>, id: &String, cwd: &String)
    requires
        pair_keys(old(m)@).no_duplicates(),
    ensures
        pair_keys(final(m)@).no_duplicates(),
        pairs_map(final(m)@) == pairs_map(old(m)@).insert(id@, cwd@),
{
    let ghost before = m@;
    let mut i: usize = 0;
    while i < m.len()
        invariant
            i <= m@.len(),
            m@ == before,
            before == old(m)@,
            pair_keys(before).no_duplicates(),
            forall|k: int| 0 <= k < i ==> m@[k].0@ != id@,
        decreases m@.len() - i,
    {
        if crate::text::str_eq(m[i].0.as_str(), id.as_str()) {
            let p = (copy_str(id.as_str()), copy_str(cwd.as_str()));
            proof { lemma_pairs_map_update(before, i as int, p); }
            let _ = m.remove(i);
            m.insert(i, p);
            assert(m@ =~= before.update(i as int, p));
            return;
        }
        i = i + 1;
    }
    let p = (copy_str(id.as_str()), copy_str(cwd.as_str()));
    m.push(p);
    assert(m@.drop_last() =~= before);
    assert(pair_keys(m@) =~= pair_keys(before).push(id@));
    assert forall|k: int| 0 <= k < before.len() implies pair_keys(before)[k] != id@ by {}
}

/// Adds one scanned session log to the tally: its counts; for a log with a `session_meta`
/// record, its thread id (when a user event occurs) and the thread's working directory; and,
/// for a log that changed, one more mismatched log and (when `rewrite`) its new text.
pub fn record_rollout_file(scan: &mut RolloutScan, path: String, file: RolloutFileScan, rewrite: bool)
    requires
        rollout_scan_wf(*old(scan)),
        old(scan).session_meta_count + file.session_meta_count <= usize::MAX,
        old(scan).mismatched_session_meta + file.mismatched_session_meta <= usize::MAX,
        old(scan).mismatched_rollouts + (if file.file_changed { 1int } else { 0 }) <= usize::MAX,
    ensures
        rollout_scan_wf(*final(scan)),
        final(scan).rollout_files == old(scan).rollout_files,
        final(scan).warnings == old(scan).warnings,
        final(scan).session_meta_count == old(scan).session_meta_count + file.session_meta_count,
        final(scan).mismatched_session_meta == old(scan).mismatched_session_meta
            + file.mismatched_session_meta,
        final(scan).mismatched_rollouts == old(scan).mismatched_rollouts + if file.file_changed { 1int } else { 0 },
        final(scan).changed_files@ == if file.file_changed && rewrite {
            old(scan).changed_files@.push((path, file.text))
        } else {
            old(scan).changed_files@
        },
        strings_view(final(scan).thread_ids_with_user_events@).to_set() == if file.file_has_meta
            && file.has_user_event && file.first_thread_id is Some {
            strings_view(old(scan).thread_ids_with_user_events@).to_set().insert(file.first_thread_id->0@)
        } else {
            strings_view(old(scan).thread_ids_with_user_events@).to_set()
        },
        pairs_map(final(scan).cwd_by_thread_id@) == if file.file_has_meta && file.first_thread_id is Some
            && file.first_cwd is Some {
            pairs_map(old(scan).cwd_by_thread_id@).insert(file.first_thread_id->0@, file.first_cwd->0@)
        } else {
            pairs_map(old(scan).cwd_by_thread_id@)
        },
{
    scan.session_meta_count = scan.session_meta_count + file.session_meta_count;
    scan.mismatched_session_meta = scan.mismatched_session_meta + file.mismatched_session_meta;
    if file.file_has_meta {
        if file.has_user_event {
            if let Some(id) = &file.first_thread_id {
                insert_id(&mut scan.thread_ids_with_user_events, id);
            }
        }
        if let Some(id) = &file.first_thread_id {
            if let Some(cwd) = &file.first_cwd {
                insert_cwd(&mut scan.cwd_by_thread_id, id, cwd);
            }
        }
    }
    if file.file_changed {
        scan.mismatched_rollouts = scan.mismatched_rollouts + 1;
        if rewrite {
            scan.changed_files.push((path, file.text));
        }
    }
}


/// What one line does to the scan's output, mismatch count and changed flag.
pub proof fn lemma_parsed_step(
    st: LogScan,
    line: Seq<char>,
    ending: Seq<char>,
    parsed: Option<JsonModel>,
    target: Seq<char>,
    rewrite: bool,
)
    ensures
        ({
            let r = parsed_line_step(st, line, ending, parsed, target, rewrite);
            &&& r.out == st.out + written_line(line, parsed, target, rewrite) + ending
            &&& r.mismatched == st.mismatched + if line_mismatch(line, parsed, target) { 1nat } else { 0nat }
            &&& r.changed == (st.changed || line_mismatch(line, parsed, target))
        }),
{
}

/// Scanning text none of whose segments is mismatched adds no mismatch and changes nothing.
pub proof fn lemma_clean_scan(s: Seq<char>, st: LogScan, target: Seq<char>, rewrite: bool)
    requires
        clean_segments(s, target),
    ensures
        scan_segments(s, st, target, rewrite).mismatched == st.mismatched,
        scan_segments(s, st, target, rewrite).changed == st.changed,
    decreases s.len(),
{
    if s.len() > 0 {
        lemma_seg_len(s);
        let k = seg_len(s);
        let seg = s.subrange(0, k);
        lemma_parsed_step(st, line_of(seg), ending_of(seg), json_parse_spec(line_of(seg)), target, rewrite);
        let st2 = line_step(st, seg, target, rewrite);
        lemma_clean_scan(s.subrange(k, s.len() as int), st2, target, rewrite);
    }
}

/// The first segment of a text that ends with a line feed lies within it.
proof fn lemma_seg_concat(a: Seq<char>, b: Seq<char>)
    requires
        a.len() > 0,
        a.last() == '\n',
    ensures
        seg_len(a + b) == seg_len(a),
    decreases a.len(),
{
    if a[0] != '\n' {
        assert((a + b).drop_first() =~= a.drop_first() + b);
        assert(a.drop_first().last() == a.last());
        lemma_seg_concat(a.drop_first(), b);
    }
}

/// Cleanness of two texts joined after a line feed is cleanness of each.
proof fn lemma_clean_concat(a: Seq<char>, b: Seq<char>, target: Seq<char>)
    requires
        a.len() == 0 || a.last() == '\n',
    ensures
        clean_segments(a + b, target) == (clean_segments(a, target) && clean_segments(b, target)),
    decreases a.len(),
{
    if a.len() == 0 {
        assert(a + b =~= b);
    } else {
        lemma_seg_len(a);
        lemma_seg_concat(a, b);
        let k = seg_len(a);
        let ab = a + b;
        assert(ab.subrange(0, k) =~= a.subrange(0, k));
        assert(ab.subrange(k, ab.len() as int) =~= a.subrange(k, a.len() as int) + b);
        let rest = a.subrange(k, a.len() as int);
        if rest.len() > 0 {
            assert(rest.last() == a.last());
        }
        lemma_clean_concat(rest, b, target);
    }
}

/// A text with no line feed before its last character is one segment.
proof fn lemma_clean_single(o: Seq<char>, target: Seq<char>)
    requires
        one_segment(o),
    ensures
        clean_segments(o, target) == (o.len() == 0 || !seg_mismatch(o, target)),
{
    if o.len() > 0 {
        let p = if o.last() == '\n' { o.len() - 1 } else { o.len() as int };
        lemma_seg_len_at(o, p);
        assert(seg_len(o) == o.len());
        assert(o.subrange(0, o.len() as int) =~= o);
        let e = o.subrange(o.len() as int, o.len() as int);
        assert(e.len() == 0);
        assert(clean_segments(e, target));
    }
}

/// A line with no line feed or carriage return, given a segment's ending, is one segment
/// whose line is that line and whose ending is that ending.
proof fn lemma_reending(c: Seq<char>, seg: Seq<char>)
    requires
        !c.contains('\n'),
        !c.contains('\r'),
    ensures
        line_of(c + ending_of(seg)) == c,
        ending_of(c + ending_of(seg)) == ending_of(seg),
        one_segment(c + ending_of(seg)),
        seg.len() > 0 && seg.last() == '\n' ==> (c + ending_of(seg)).len() > 0 && (c + ending_of(seg)).last() == '\n',
{
    let e = ending_of(seg);
    let o = c + e;
    let k = ending_len(seg);
    if k == 2 {
        assert(seg.subrange(seg.len() - 2, seg.len() as int) == seq!['\r', '\n']);
        assert(e =~= seq!['\r', '\n']);
        assert(o.subrange(o.len() - 2, o.len() as int) =~= seq!['\r', '\n']);
        assert(ending_len(o) == 2);
    } else if k == 1 {
        assert(seg.subrange(seg.len() - 1, seg.len() as int) == seq!['\n']);
        assert(e =~= seq!['\n']);
        assert(o.subrange(o.len() - 1, o.len() as int) =~= seq!['\n']);
        if o.len() >= 2 {
            assert(o[o.len() - 2] == c[c.len() - 1]);
            assert(c.contains(c[c.len() - 1]));
            assert(o.subrange(o.len() - 2, o.len() as int) != seq!['\r', '\n']) by {
                assert(o.subrange(o.len() - 2, o.len() as int)[0] == o[o.len() - 2]);
            }
        }
        assert(ending_len(o) == 1);
    } else {
        assert(e =~= Seq::<char>::empty());
        assert(o =~= c);
        if c.len() > 0 {
            assert(c.contains(c.last()));
            assert(o.subrange(o.len() - 1, o.len() as int) != seq!['\n']) by {
                assert(o.subrange(o.len() - 1, o.len() as int)[0] == o.last());
            }
        }
        assert(ending_len(o) == 0);
    }
    assert(line_of(o) =~= c);
    assert(ending_of(o) =~= e);
    assert forall|m: int| 0 <= m < o.len() - 1 implies o[m] != '\n' by {
        if m < c.len() {
            assert(o[m] == c[m]);
            assert(c.contains(c[m]));
        } else {
            assert(o[m] == e[m - c.len()]);
        }
    }
    if seg.len() > 0 && seg.last() == '\n' {
        if k == 0 {
            assert(seg.subrange(seg.len() - 1, seg.len() as int) =~= seq!['\n']);
        }
        assert(o.last() == e.last());
    }
}

/// Setting a member keeps the names of an object distinct and its members free of repeated
/// names.
proof fn lemma_set_member_unique(ms: Seq<(Seq<char>, JsonModel)>, key: Seq<char>, val: JsonModel)
    requires
        json_keys_unique(JsonModel::Object(ms)),
        json_keys_unique(val),
    ensures
        json_keys_unique(JsonModel::Object(set_member(ms, key, val))),
{
    let n = ms.len() as int;
    lemma_member_index_bounds(ms, key, n);
    let r = set_member(ms, key, val);
    let v = JsonModel::Object(ms);
    assert(v->Object_0 == ms);
    assert(json_keys_unique(v));
    match member_index(ms, key, n) {
        Some(i) => {
            assert forall|a: int, b: int| #![trigger r[a], r[b]] 0 <= a < b < r.len() implies r[a].0 != r[b].0 by {
                assert(r[a].0 == ms[a].0 && r[b].0 == ms[b].0);
                assert(ms[a].0 != ms[b].0);
            }
            assert forall|a: int| #![trigger r[a]] 0 <= a < r.len() implies json_keys_unique(r[a].1) by {
                if a != i {
                    assert(r[a] == ms[a]);
                    assert(json_keys_unique(ms[a].1));
                }
            }
        },
        None => {
            assert forall|a: int, b: int| #![trigger r[a], r[b]] 0 <= a < b < r.len() implies r[a].0 != r[b].0 by {
                if b == n {
                    assert(r[a] == ms[a]);
                } else {
                    assert(r[a] == ms[a] && r[b] == ms[b]);
                    assert(ms[a].0 != ms[b].0);
                }
            }
            assert forall|a: int| #![trigger r[a]] 0 <= a < r.len() implies json_keys_unique(r[a].1) by {
                if a < n {
                    assert(r[a] == ms[a]);
                    assert(json_keys_unique(ms[a].1));
                }
            }
        },
    }
}

/// Retargeting a record keeps its member names free of repeats.
proof fn lemma_retarget_unique(rec: JsonModel, p: Seq<(Seq<char>, JsonModel)>, target: Seq<char>)
    requires
        json_keys_unique(rec),
        rec is Object,
        model_get(rec, "payload"@) == Some(JsonModel::Object(p)),
    ensures
        json_keys_unique(with_payload(rec, set_member(p, "model_provider"@, JsonModel::Str(target)))),
{
    let ms = rec->Object_0;
    let n = ms.len() as int;
    lemma_member_index_bounds(ms, "payload"@, n);
    let i = member_index(ms, "payload"@, n)->0;
    assert(ms[i].1 == JsonModel::Object(p));
    assert(json_keys_unique(ms[i].1));
    lemma_set_member_unique(p, "model_provider"@, JsonModel::Str(target));
    lemma_set_member_unique(ms, "payload"@, JsonModel::Object(set_member(p, "model_provider"@, JsonModel::Str(target))));
}

/// Where the retargeted record's text reads back as a record of the same shape, its
/// payload names `target`, so the line is not mismatched.
proof fn lemma_retarget_rereads(rec: JsonModel, p: Seq<(Seq<char>, JsonModel)>, target: Seq<char>)
    requires
        rec is Object,
        ({
            let r2 = with_payload(rec, set_member(p, "model_provider"@, JsonModel::Str(target)));
            json_parse_spec(json_compact_spec(r2)) is Some ==> json_similar(r2, json_parse_spec(json_compact_spec(r2))->0)
        }),
    ensures
        !line_mismatch(retargeted_line(rec, p, target), json_parse_spec(retargeted_line(rec, p, target)), target),
{
    let p2 = set_member(p, "model_provider"@, JsonModel::Str(target));
    let r2 = with_payload(rec, p2);
    let c = json_compact_spec(r2);
    if json_parse_spec(c) is Some {
        let w = json_parse_spec(c)->0;
        let ms2 = set_member(rec->Object_0, "payload"@, JsonModel::Object(p2));
        assert(r2 == JsonModel::Object(ms2));
        crate::laws::lemma_member_set_same(rec->Object_0, "payload"@, JsonModel::Object(p2));
        crate::laws::lemma_member_set_same(p, "model_provider"@, JsonModel::Str(target));
        lemma_member_index_bounds(ms2, "payload"@, ms2.len() as int);
        let ip = member_index(ms2, "payload"@, ms2.len() as int)->0;
        assert(ms2[ip].1 == JsonModel::Object(p2));
        assert(json_similar(r2, w));
        let ns = w->Object_0;
        assert(member_index(ns, ms2[ip].0, ns.len() as int) is Some);
        let j = member_index(ns, "payload"@, ns.len() as int)->0;
        assert(json_similar(JsonModel::Object(p2), ns[j].1));
        assert(model_get(w, "payload"@) == Some(ns[j].1));
        lemma_member_index_bounds(p2, "model_provider"@, p2.len() as int);
        let i2 = member_index(p2, "model_provider"@, p2.len() as int)->0;
        assert(p2[i2].1 == JsonModel::Str(target));
        let q = ns[j].1->Object_0;
        assert(member_index(q, p2[i2].0, q.len() as int) is Some);
        let j2 = member_index(q, "model_provider"@, q.len() as int)->0;
        assert(json_similar(JsonModel::Str(target), q[j2].1));
        assert(str_member(JsonModel::Object(q), "model_provider"@) == Some(target));
    }
}


} // verus!
