//! The session-sync screen: tallying the `threads` tables of Codex's SQLite state, building
//! the session list, the status summary, and the updates that re-point threads at a provider.

use vstd::prelude::*;
use crate::text::{chars_of, concat_str, copy_str, opt_view, str_eq, string_of, strings_view, trim, trim_chars, trim_str};
use crate::names::{contains_string, decimal_text, digits, digits_text, select_column_spec, sql_select_column};
use crate::sessions::{pairs_map, pair_keys, RolloutScan};

verus! {

/// The tally of the `threads` tables found in Codex's SQLite files.
#[derive(Clone, Debug)]
pub struct SqliteScan {
    pub sqlite_dbs: usize,
    pub sqlite_threads: usize,
    pub mismatched_threads: usize,
    pub warnings: Vec<String>,
}

pub fn new_sqlite_scan() -> (r: SqliteScan)
    ensures
        r.sqlite_dbs == 0,
        r.sqlite_threads == 0,
        r.mismatched_threads == 0,
        r.warnings@.len() == 0,
{
    SqliteScan { sqlite_dbs: 0, sqlite_threads: 0, mismatched_threads: 0, warnings: Vec::new() }
}

/// What opening one SQLite file showed.
#[derive(Clone, Debug)]
pub enum SqliteProbe {
    /// The file did not open; the error's text.
    OpenFailed(String),
    /// It has no `threads` table.
    NoThreadsTable,
    /// The columns of its `threads` table.
    Columns(Vec<String>),
}

/// Whether a `threads` table records providers.
pub open spec fn has_provider_column(cols: Seq<Seq<char>>) -> bool {
    cols.contains("model_provider"@)
}

/// Notes what a probe showed and tells whether the file's threads are to be counted: an
/// unreadable file and a `threads` table without `model_provider` each leave a warning.
pub fn sqlite_scan_step(scan: &mut SqliteScan, path: &str, probe: &SqliteProbe) -> (count: bool)
    ensures
        count == (probe matches SqliteProbe::Columns(cols) && has_provider_column(strings_view(cols@))),
        final(scan).sqlite_dbs == old(scan).sqlite_dbs,
        final(scan).sqlite_threads == old(scan).sqlite_threads,
        final(scan).mismatched_threads == old(scan).mismatched_threads,
        strings_view(final(scan).warnings@) == match probe {
            SqliteProbe::OpenFailed(e) => strings_view(old(scan).warnings@).push(
                "无法读取 SQLite: "@ + path@ + " ("@ + e@ + ")"@,
            ),
            SqliteProbe::NoThreadsTable => strings_view(old(scan).warnings@),
            SqliteProbe::Columns(cols) => if has_provider_column(strings_view(cols@)) {
                strings_view(old(scan).warnings@)
            } else {
                strings_view(old(scan).warnings@).push("SQLite threads 缺少 model_provider 字段: "@ + path@)
            },
        },
{
    proof { reveal_strlit("model_provider"); }
    match probe {
        SqliteProbe::OpenFailed(e) => {
            let a = concat_str("无法读取 SQLite: ", path);
            let b = concat_str(a.as_str(), " (");
            let c = concat_str(b.as_str(), e.as_str());
            let d = concat_str(c.as_str(), ")");
            scan.warnings.push(d);
            false
        },
        SqliteProbe::NoThreadsTable => false,
        SqliteProbe::Columns(cols) => {
            if contains_string(cols, "model_provider") {
                true
            } else {
                let w = concat_str("SQLite threads 缺少 model_provider 字段: ", path);
                scan.warnings.push(w);
                false
            }
        },
    }
}


/// Counts one file's threads: `total` of them, `mismatched` with another provider; negative
/// counts count as zero.
pub fn add_sqlite_counts(scan: &mut SqliteScan, total: i64, mismatched: i64)
    requires
        old(scan).sqlite_dbs < usize::MAX,
        old(scan).sqlite_threads + (if total > 0 { total as usize } else { 0 }) <= usize::MAX,
        old(scan).mismatched_threads + (if mismatched > 0 { mismatched as usize } else { 0 }) <= usize::MAX,
    ensures
        final(scan).sqlite_dbs == old(scan).sqlite_dbs + 1,
        final(scan).sqlite_threads == old(scan).sqlite_threads + (if total > 0 { total as usize } else { 0 }),
        final(scan).mismatched_threads == old(scan).mismatched_threads + (if mismatched > 0 { mismatched as usize } else { 0 }),
        final(scan).warnings == old(scan).warnings,
{
    scan.sqlite_dbs = scan.sqlite_dbs + 1;
    let t: usize = if total > 0 { total as usize } else { 0 };
    let m: usize = if mismatched > 0 { mismatched as usize } else { 0 };
    scan.sqlite_threads = scan.sqlite_threads + t;
    scan.mismatched_threads = scan.mismatched_threads + m;
}

/// One row of a `threads` table, as read.
#[derive(Clone, Debug)]
pub struct SessionRow {
    pub id: String,
    pub title: Option<String>,
    pub first_message: Option<String>,
    pub preview: Option<String>,
    pub model_provider: Option<String>,
    pub model: Option<String>,
    pub cwd: Option<String>,
    pub rollout_path: Option<String>,
    pub updated_at_ms: Option<i64>,
    pub updated_at: Option<i64>,
    pub archived: i64,
    pub has_user_event: i64,
}

/// A session as the sync screen lists it.
#[derive(Clone, Debug)]
pub struct SessionPreview {
    pub id: String,
    pub title: String,
    pub model_provider: Option<String>,
    pub model: Option<String>,
    pub cwd: Option<String>,
    pub rollout_path: Option<String>,
    pub updated_at_ms: Option<i64>,
    pub archived: bool,
    pub has_user_event: bool,
    pub needs_sync: bool,
}

/// A value trimmed, unless that leaves nothing.
pub open spec fn nonblank(o: Option<String>) -> Option<Seq<char>> {
    match o {
        Some(s) => if trim(s@).len() > 0 { Some(trim(s@)) } else { None },
        None => None,
    }
}

fn nonblank_exec(o: &Option<String>) -> (r: Option<String>)
    ensures
        match r {
            Some(s) => nonblank(*o) == Some(s@),
            None => nonblank(*o) is None,
        },
{
    match o {
        Some(s) => {
            let t = trim_str(s.as_str());
            if t.as_str().is_empty() { None } else { Some(t) }
        },
        None => None,
    }
}

/// The title shown for a session: its title, first user message or preview (the first that
/// is not blank, trimmed), else `会话 ` and the first eight characters of its id.
pub open spec fn session_title(row: SessionRow) -> Seq<char> {
    if nonblank(row.title) is Some {
        nonblank(row.title)->0
    } else if nonblank(row.first_message) is Some {
        nonblank(row.first_message)->0
    } else if nonblank(row.preview) is Some {
        nonblank(row.preview)->0
    } else {
        "会话 "@ + row.id@.take(if row.id@.len() < 8 { row.id@.len() as int } else { 8 })
    }
}

/// The listing of one row; `target` is the provider sessions should point at.
pub open spec fn preview_matches(p: SessionPreview, row: SessionRow, target: Seq<char>) -> bool {
    &&& p.id@ == row.id@
    &&& p.title@ == session_title(row)
    &&& opt_view(p.model_provider) == nonblank(row.model_provider)
    &&& opt_view(p.model) == nonblank(row.model)
    &&& opt_view(p.cwd) == nonblank(row.cwd)
    &&& opt_view(p.rollout_path) == nonblank(row.rollout_path)
    &&& p.updated_at_ms == match row.updated_at_ms {
        Some(ms) => Some(ms),
        None => match row.updated_at {
            Some(s) => Some((s * 1000) as i64),
            None => None,
        },
    }
    &&& p.archived == (row.archived != 0)
    &&& p.has_user_event == (row.has_user_event != 0)
    &&& p.needs_sync == (nonblank(row.model_provider) != Some(target))
}

/// The listing of one `threads` row.
pub fn session_preview_from_row(row: SessionRow, target: &str) -> (r: SessionPreview)
    requires
        row.updated_at_ms is None ==> (row.updated_at matches Some(s) ==> i64::MIN <= s * 1000
            <= i64::MAX),
    ensures
        preview_matches(r, row, target@),
{
    let ghost row0 = row;
    let title = match nonblank_exec(&row.title) {
        Some(t) => t,
        None => match nonblank_exec(&row.first_message) {
            Some(t) => t,
            None => match nonblank_exec(&row.preview) {
                Some(t) => t,
                None => {
                    let idc = chars_of(row.id.as_str());
                    let k: usize = if idc.len() < 8 { idc.len() } else { 8 };
                    let mut head = chars_of("会话 ");
                    let mut i: usize = 0;
                    while i < k
                        invariant
                            k <= idc@.len(),
                            i <= k,
                            head@ == "会话 "@ + idc@.take(i as int),
                        decreases k - i,
                    {
                        head.push(idc[i]);
                        assert(idc@.take(i + 1) =~= idc@.take(i as int).push(idc@[i as int]));
                        i = i + 1;
                    }
                    string_of(head.as_slice())
                },
            },
        },
    };
    let provider = nonblank_exec(&row.model_provider);
    let needs_sync = match &provider {
        Some(p) => !str_eq(p.as_str(), target),
        None => true,
    };
    let updated = match row.updated_at_ms {
        Some(ms) => Some(ms),
        None => match row.updated_at {
            Some(s) => Some(s * 1000),
            None => None,
        },
    };
    SessionPreview {
        id: row.id,
        title,
        model_provider: provider,
        model: nonblank_exec(&row.model),
        cwd: nonblank_exec(&row.cwd),
        rollout_path: nonblank_exec(&row.rollout_path),
        updated_at_ms: updated,
        archived: row.archived != 0,
        has_user_event: row.has_user_event != 0,
        needs_sync,
    }
}


/// `a` sorts before `b` in `Option`'s order (`None` first).
pub open spec fn key_lt(a: Option<i64>, b: Option<i64>) -> bool {
    match (a, b) {
        (None, Some(_)) => true,
        (Some(x), Some(y)) => x < y,
        _ => false,
    }
}

/// The sessions of `s`, keeping the first with each id; `seen` are ids already taken.
pub open spec fn dedup_from(s: Seq<SessionPreview>, seen: Set<Seq<char>>) -> Seq<SessionPreview>
    decreases s.len(),
{
    if s.len() == 0 {
        s
    } else if seen.contains(s[0].id@) {
        dedup_from(s.drop_first(), seen)
    } else {
        seq![s[0]] + dedup_from(s.drop_first(), seen.insert(s[0].id@))
    }
}

/// Where a stable descending sort puts `x` among the already sorted `s`: after every entry
/// that is not older.
pub open spec fn insert_pos(s: Seq<SessionPreview>, x: SessionPreview, n: int) -> int
    decreases n,
{
    if n <= 0 {
        0
    } else if insert_pos(s, x, n - 1) < n - 1 {
        insert_pos(s, x, n - 1)
    } else if n - 1 < s.len() && key_lt(s[n - 1].updated_at_ms, x.updated_at_ms) {
        n - 1
    } else {
        n
    }
}

/// A stable sort by `updated_at_ms`, newest first (`sort_by(|a, b| b.cmp(a))`).
pub open spec fn sort_newest_first(s: Seq<SessionPreview>) -> Seq<SessionPreview>
    decreases s.len(),
{
    if s.len() == 0 {
        s
    } else {
        let sorted = sort_newest_first(s.drop_last());
        sorted.insert(insert_pos(sorted, s.last(), sorted.len() as int), s.last())
    }
}

/// The session list: duplicates (by id) dropped, newest first, at most `limit` of them.
pub open spec fn merged_sessions(s: Seq<SessionPreview>, limit: int) -> Seq<SessionPreview> {
    let sorted = sort_newest_first(dedup_from(s, Set::empty()));
    if sorted.len() <= limit { sorted } else { sorted.take(limit) }
}

proof fn lemma_insert_pos_bounds(s: Seq<SessionPreview>, x: SessionPreview, n: int)
    requires
        0 <= n,
    ensures
        0 <= insert_pos(s, x, n) <= n,
    decreases n,
{
    if n > 0 {
        lemma_insert_pos_bounds(s, x, n - 1);
    }
}

proof fn lemma_sort_len(s: Seq<SessionPreview>)
    ensures
        sort_newest_first(s).len() == s.len(),
    decreases s.len(),
{
    if s.len() > 0 {
        lemma_sort_len(s.drop_last());
        let sorted = sort_newest_first(s.drop_last());
        lemma_insert_pos_bounds(sorted, s.last(), sorted.len() as int);
    }
}

fn older(a: Option<i64>, b: Option<i64>) -> (r: bool)
    ensures
        r == key_lt(a, b),
{
    match (a, b) {
        (None, Some(_)) => true,
        (Some(x), Some(y)) => x < y,
        _ => false,
    }
}

/// Drops later sessions with an id already listed.
fn dedup_sessions(rows: Vec<SessionPreview>) -> (r: Vec<SessionPreview>)
    ensures
        r@ == dedup_from(rows@, Set::empty()),
{
    let ghost all = rows@;
    let mut rest = rows;
    let mut out: Vec<SessionPreview> = Vec::new();
    let mut seen: Vec<String> = Vec::new();
    assert(all.subrange(0, all.len() as int) =~= all);
    assert(strings_view(seen@).to_set() =~= Set::<Seq<char>>::empty());
    while rest.len() > 0
        invariant
            dedup_from(all, Set::empty()) == out@ + dedup_from(rest@, strings_view(seen@).to_set()),
        decreases rest@.len(),
    {
        let ghost rest_before = rest@;
        let x = rest.remove(0);
        let ghost tail = rest@;
        let ghost seen_set = strings_view(seen@).to_set();
        assert(rest_before.drop_first() =~= tail);
        assert(rest_before[0] == x);
        if contains_string(&seen, x.id.as_str()) {
            assert(strings_view(seen@).contains(x.id@));
            assert(seen_set.contains(x.id@));
            assert(dedup_from(rest_before, seen_set) == dedup_from(tail, seen_set));
            assert(dedup_from(all, Set::empty()) == out@ + dedup_from(rest@, strings_view(seen@).to_set()));
        } else {
            assert(!seen_set.contains(x.id@));
            assert(dedup_from(rest_before, seen_set) == seq![x] + dedup_from(tail, seen_set.insert(x.id@)));
            let idc = copy_str(x.id.as_str());
            let ghost seen_before = seen@;
            seen.push(idc);
            proof {
                assert(strings_view(seen@) =~= strings_view(seen_before).push(x.id@));
                lemma_push_set(strings_view(seen_before), x.id@);
                assert(strings_view(seen@).to_set() == seen_set.insert(x.id@));
            }
            let ghost out_before = out@;
            out.push(x);
            assert(out@ + dedup_from(tail, seen_set.insert(x.id@)) =~= out_before + (seq![x] + dedup_from(tail, seen_set.insert(x.id@))));
        }
    }
    assert(out@ + Seq::<SessionPreview>::empty() =~= out@);
    out
}

proof fn lemma_push_set(s: Seq<Seq<char>>, a: Seq<char>)
    ensures
        s.push(a).to_set() == s.to_set().insert(a),
{
    assert forall|x: Seq<char>| s.push(a).to_set().contains(x) == s.to_set().insert(a).contains(x) by {
        if s.push(a).contains(x) {
            let j = choose|j: int| 0 <= j < s.push(a).len() && s.push(a)[j] == x;
            if j < s.len() {
                assert(s[j] == x);
            }
        }
        if s.contains(x) {
            let j = choose|j: int| 0 <= j < s.len() && s[j] == x;
            assert(s.push(a)[j] == x);
        }
        if x == a {
            assert(s.push(a)[s.len() as int] == a);
        }
    }
    assert(s.push(a).to_set() =~= s.to_set().insert(a));
}


/// Stable sort, newest first.
fn sort_sessions(rows: Vec<SessionPreview>) -> (r: Vec<SessionPreview>)
    ensures
        r@ == sort_newest_first(rows@),
{
    let ghost all = rows@;
    let mut rest = rows;
    let mut out: Vec<SessionPreview> = Vec::new();
    let mut i: usize = 0;
    let n = rest.len();
    assert(all.take(0) =~= Seq::<SessionPreview>::empty());
    while rest.len() > 0
        invariant
            n == all.len(),
            i + rest@.len() == n,
            rest@ == all.subrange(i as int, n as int),
            out@ == sort_newest_first(all.take(i as int)),
        decreases rest@.len(),
    {
        let ghost rest_before = rest@;
        let x = rest.remove(0);
        assert(x == all[i as int]);
        assert(rest@ =~= all.subrange(i + 1, n as int));
        proof {
            lemma_sort_len(all.take(i as int));
        }
        let m = out.len();
        let mut p: usize = 0;
        while p < m && !older(out[p].updated_at_ms, x.updated_at_ms)
            invariant
                p <= m,
                m == out@.len(),
                insert_pos(out@, x, p as int) == p,
            decreases m - p,
        {
            p = p + 1;
        }
        proof {
            if p < m {
                assert(insert_pos(out@, x, p + 1) == p);
                lemma_insert_pos_stable(out@, x, p + 1, m as int);
            }
            assert(insert_pos(out@, x, m as int) == p);
        }
        out.insert(p, x);
        assert(all.take(i + 1).drop_last() =~= all.take(i as int));
        assert(all.take(i + 1).last() == x);
        i = i + 1;
    }
    assert(all.take(n as int) =~= all);
    out
}

proof fn lemma_insert_pos_stable(s: Seq<SessionPreview>, x: SessionPreview, m: int, n: int)
    requires
        0 <= m <= n,
        insert_pos(s, x, m) < m,
    ensures
        insert_pos(s, x, n) == insert_pos(s, x, m),
    decreases n - m,
{
    if m < n {
        lemma_insert_pos_stable(s, x, m, n - 1);
    }
}

/// The session list: see `merged_sessions`.
pub fn merge_session_previews(rows: Vec<SessionPreview>, limit: usize) -> (r: Vec<SessionPreview>)
    ensures
        r@ == merged_sessions(rows@, limit as int),
{
    let unique = dedup_sessions(rows);
    let mut sorted = sort_sessions(unique);
    if sorted.len() > limit {
        sorted.truncate(limit);
    }
    sorted
}

/// How many sessions to list: the number of threads, kept between 50 and 1000.
pub open spec fn session_limit_spec(threads: int) -> int {
    if threads < 50 { 50 } else if threads > 1000 { 1000 } else { threads }
}

pub fn session_limit(threads: usize) -> (r: usize)
    ensures
        r == session_limit_spec(threads as int),
{
    let a = if threads < 50 { 50 } else { threads };
    if a > 1000 { 1000 } else { a }
}


fn append_str(out: &mut Vec<char>, s: &str)
    ensures
        final(out)@ == old(out)@ + s@,
{
    let v = chars_of(s);
    for i in 0..v.len()
        invariant
            out@ == old(out)@ + v@.take(i as int),
    {
        out.push(v[i]);
        assert(v@.take(i + 1) =~= v@.take(i as int).push(v@[i as int]));
    }
    assert(v@.take(v@.len() as int) =~= v@);
}

/// The column the session list is ordered by: the first of `recency_at_ms`,
/// `updated_at_ms`, `updated_at` that the table has, else `id`; quoted.
pub open spec fn order_column(cols: Seq<Seq<char>>) -> Seq<char> {
    if cols.contains("recency_at_ms"@) {
        "\"recency_at_ms\""@
    } else if cols.contains("updated_at_ms"@) {
        "\"updated_at_ms\""@
    } else if cols.contains("updated_at"@) {
        "\"updated_at\""@
    } else {
        "\"id\""@
    }
}

/// The query that lists the newest `limit` (at least one) threads of a table with columns
/// `cols`; columns it lacks read as `NULL` (or `0` for the flags). `None` when the table
/// has no `id` column.
pub open spec fn session_query_spec(cols: Seq<Seq<char>>, limit: nat) -> Option<Seq<char>> {
    if !cols.contains("id"@) {
        None
    } else {
        let null = "NULL"@;
        let zero = "0"@;
        Some(
            "SELECT \"id\", "@ + select_column_spec(cols, "title"@, null) + ", "@
                + select_column_spec(cols, "first_user_message"@, null) + ", "@
                + select_column_spec(cols, "preview"@, null) + ", "@
                + select_column_spec(cols, "model_provider"@, null) + ", "@
                + select_column_spec(cols, "model"@, null) + ", "@
                + select_column_spec(cols, "cwd"@, null) + ", "@
                + select_column_spec(cols, "rollout_path"@, null) + ", "@
                + select_column_spec(cols, "updated_at_ms"@, null) + ", "@
                + select_column_spec(cols, "updated_at"@, null) + ", "@
                + select_column_spec(cols, "archived"@, zero) + ", "@
                + select_column_spec(cols, "has_user_event"@, zero) + " FROM threads ORDER BY "@
                + order_column(cols) + " DESC LIMIT "@ + digits(if limit < 1 { 1 } else { limit }),
        )
    }
}

fn append_select(out: &mut Vec<char>, cols: &Vec<String>, name: &str, fallback: &str, sep: &str)
    ensures
        final(out)@ == old(out)@ + select_column_spec(strings_view(cols@), name@, fallback@) + sep@,
{
    let c = sql_select_column(cols, name, fallback);
    append_str(out, c.as_str());
    append_str(out, sep);
}

/// The listing query for one `threads` table (see `session_query_spec`).
pub fn session_preview_query(cols: &Vec<String>, limit: usize) -> (r: Option<String>)
    ensures
        opt_view(r) == session_query_spec(strings_view(cols@), limit as nat),
{
    if !contains_string(cols, "id") {
        return None;
    }
    let mut out: Vec<char> = Vec::new();
    append_str(&mut out, "SELECT \"id\", ");
    append_select(&mut out, cols, "title", "NULL", ", ");
    append_select(&mut out, cols, "first_user_message", "NULL", ", ");
    append_select(&mut out, cols, "preview", "NULL", ", ");
    append_select(&mut out, cols, "model_provider", "NULL", ", ");
    append_select(&mut out, cols, "model", "NULL", ", ");
    append_select(&mut out, cols, "cwd", "NULL", ", ");
    append_select(&mut out, cols, "rollout_path", "NULL", ", ");
    append_select(&mut out, cols, "updated_at_ms", "NULL", ", ");
    append_select(&mut out, cols, "updated_at", "NULL", ", ");
    append_select(&mut out, cols, "archived", "0", ", ");
    append_select(&mut out, cols, "has_user_event", "0", " FROM threads ORDER BY ");
    let order = if contains_string(cols, "recency_at_ms") {
        "\"recency_at_ms\""
    } else if contains_string(cols, "updated_at_ms") {
        "\"updated_at_ms\""
    } else if contains_string(cols, "updated_at") {
        "\"updated_at\""
    } else {
        "\"id\""
    };
    append_str(&mut out, order);
    append_str(&mut out, " DESC LIMIT ");
    let lim: usize = if limit < 1 { 1 } else { limit };
    let d = digits_text(lim as u64);
    let ds = string_of(d.as_slice());
    append_str(&mut out, ds.as_str());
    let r = string_of(out.as_slice());
    proof {
        reveal_strlit("id");
        reveal_strlit("recency_at_ms");
        reveal_strlit("updated_at_ms");
        reveal_strlit("updated_at");
    }
    assert(r@ =~= session_query_spec(strings_view(cols@), limit as nat)->0);
    Some(r)
}


/// The summary the sync screen shows.
#[derive(Clone, Debug)]
pub struct SessionSyncStatus {
    pub codex_dir: String,
    pub target_provider: String,
    pub rollout_files: usize,
    pub session_meta_count: usize,
    pub mismatched_rollouts: usize,
    pub mismatched_session_meta: usize,
    pub sqlite_dbs: usize,
    pub sqlite_threads: usize,
    pub mismatched_threads: usize,
    pub needs_sync: bool,
    pub backup_dir: Option<String>,
    pub warnings: Vec<String>,
    pub sessions: Vec<SessionPreview>,
}

/// The outcome of a sync.
#[derive(Clone, Debug)]
pub struct SessionSyncResult {
    pub status: SessionSyncStatus,
    pub updated_rollouts: usize,
    pub updated_threads: usize,
    pub backup_dir: String,
}

/// The status of a Codex directory from its scans: the counts as found; a sync is needed
/// when a `session_meta` record or a thread names another provider; the sessions are the
/// rows read from the databases merged as `merged_sessions` does, at most
/// `session_limit(threads)` of them; the warnings of the log scan, the SQLite scan and the
/// session listing, in that order.
pub fn session_sync_status_inner(
    codex_dir: String,
    target: String,
    rollouts: RolloutScan,
    sqlite: SqliteScan,
    session_rows: Vec<SessionPreview>,
    session_warnings: Vec<String>,
) -> (r: SessionSyncStatus)
    ensures
        r.codex_dir == codex_dir,
        r.target_provider == target,
        r.rollout_files == rollouts.rollout_files,
        r.session_meta_count == rollouts.session_meta_count,
        r.mismatched_rollouts == rollouts.mismatched_rollouts,
        r.mismatched_session_meta == rollouts.mismatched_session_meta,
        r.sqlite_dbs == sqlite.sqlite_dbs,
        r.sqlite_threads == sqlite.sqlite_threads,
        r.mismatched_threads == sqlite.mismatched_threads,
        r.needs_sync == (rollouts.mismatched_session_meta > 0 || sqlite.mismatched_threads > 0),
        r.backup_dir is None,
        r.warnings@ == rollouts.warnings@ + sqlite.warnings@ + session_warnings@,
        r.sessions@ == merged_sessions(session_rows@, session_limit_spec(sqlite.sqlite_threads as int)),
        r.sessions@.len() <= session_limit_spec(sqlite.sqlite_threads as int),
{
    let sessions = merge_session_previews(session_rows, session_limit(sqlite.sqlite_threads));
    let needs_sync = rollouts.mismatched_session_meta > 0 || sqlite.mismatched_threads > 0;
    let mut warnings = rollouts.warnings;
    let mut sw = sqlite.warnings;
    let mut xw = session_warnings;
    warnings.append(&mut sw);
    warnings.append(&mut xw);
    SessionSyncStatus {
        codex_dir,
        target_provider: target,
        rollout_files: rollouts.rollout_files,
        session_meta_count: rollouts.session_meta_count,
        mismatched_rollouts: rollouts.mismatched_rollouts,
        mismatched_session_meta: rollouts.mismatched_session_meta,
        sqlite_dbs: sqlite.sqlite_dbs,
        sqlite_threads: sqlite.sqlite_threads,
        mismatched_threads: sqlite.mismatched_threads,
        needs_sync,
        backup_dir: None,
        warnings,
        sessions,
    }
}

/// The outcome of a sync: the fresh status with the backup directory set, and a note when
/// nothing needed repair (no log was rewritten and no thread named another provider).
pub fn finish_sync(
    status: SessionSyncStatus,
    rewrote_logs: bool,
    mismatched_threads_before: usize,
    updated_rollouts: usize,
    updated_threads: usize,
    backup_dir: String,
) -> (r: SessionSyncResult)
    ensures
        opt_view(r.status.backup_dir) == Some(backup_dir@),
        r.backup_dir@ == backup_dir@,
        r.updated_rollouts == updated_rollouts,
        r.updated_threads == updated_threads,
        strings_view(r.status.warnings@) == if !rewrote_logs && mismatched_threads_before == 0 {
            strings_view(status.warnings@).push("没有发现需要修复的会话；已保留一次安全备份。"@)
        } else {
            strings_view(status.warnings@)
        },
        r.status.needs_sync == status.needs_sync,
        r.status.sessions == status.sessions,
{
    let mut status = status;
    status.backup_dir = Some(copy_str(backup_dir.as_str()));
    if !rewrote_logs && mismatched_threads_before == 0 {
        let ghost before = status.warnings@;
        status.warnings.push(copy_str("没有发现需要修复的会话；已保留一次安全备份。"));
        assert(strings_view(status.warnings@) =~= strings_view(before).push("没有发现需要修复的会话；已保留一次安全备份。"@));
    }
    SessionSyncResult { status, updated_rollouts, updated_threads, backup_dir }
}

/// One parameterised `UPDATE` on a `threads` table.
#[derive(Clone, Debug)]
pub struct SqlUpdate {
    pub sql: &'static str,
    pub params: Vec<String>,
}

pub open spec fn update_view(u: SqlUpdate) -> (Seq<char>, Seq<Seq<char>>) {
    (u.sql@, strings_view(u.params@))
}

pub open spec fn set_provider_sql() -> Seq<char> {
    "UPDATE threads SET model_provider = ?1 WHERE COALESCE(model_provider, '') <> ?1"@
}

pub open spec fn mark_user_event_sql() -> Seq<char> {
    "UPDATE threads SET has_user_event = 1 WHERE id = ?1 AND COALESCE(has_user_event, 0) <> 1"@
}

pub open spec fn set_cwd_sql() -> Seq<char> {
    "UPDATE threads SET cwd = ?1 WHERE id = ?2 AND COALESCE(cwd, '') <> ?1"@
}

/// The updates a sync runs on one `threads` table with columns `cols`: none when it has no
/// `model_provider`; else every thread is pointed at `target`, then (when the table has the
/// columns) the user-event flag is set for each listed thread and each listed working
/// directory is written.
pub open spec fn sync_updates_spec(
    cols: Seq<Seq<char>>,
    target: Seq<char>,
    ids: Seq<Seq<char>>,
    cwds: Seq<(Seq<char>, Seq<char>)>,
) -> Option<Seq<(Seq<char>, Seq<Seq<char>>)>> {
    if !cols.contains("model_provider"@) {
        None
    } else {
        let marks = if cols.contains("has_user_event"@) {
            ids.map_values(|id: Seq<char>| (mark_user_event_sql(), seq![id]))
        } else {
            Seq::empty()
        };
        let dirs = if cols.contains("cwd"@) {
            cwds.map_values(|p: (Seq<char>, Seq<char>)| (set_cwd_sql(), seq![p.1, p.0]))
        } else {
            Seq::empty()
        };
        Some(seq![(set_provider_sql(), seq![target])] + marks + dirs)
    }
}

pub open spec fn pairs_view(v: Seq<(String, String)>) -> Seq<(Seq<char>, Seq<char>)> {
    v.map_values(|p: (String, String)| (p.0@, p.1@))
}

/// The updates for one `threads` table (see `sync_updates_spec`).
pub fn provider_sync_updates(
    cols: &Vec<String>,
    target: &str,
    ids: &Vec<String>,
    cwds: &Vec<(String, String)>,
) -> (r: Option<Vec<SqlUpdate>>)
    ensures
        match r {
            Some(v) => sync_updates_spec(strings_view(cols@), target@, strings_view(ids@), pairs_view(cwds@))
                == Some(v@.map_values(|u: SqlUpdate| update_view(u))),
            None => sync_updates_spec(strings_view(cols@), target@, strings_view(ids@), pairs_view(cwds@)) is None,
        },
{
    proof {
        reveal_strlit("model_provider");
        reveal_strlit("has_user_event");
        reveal_strlit("cwd");
    }
    if !contains_string(cols, "model_provider") {
        return None;
    }
    let mut out: Vec<SqlUpdate> = Vec::new();
    let first = SqlUpdate {
        sql: "UPDATE threads SET model_provider = ?1 WHERE COALESCE(model_provider, '') <> ?1",
        params: vec![copy_str(target)],
    };
    assert(strings_view(first.params@) =~= seq![target@]);
    assert(update_view(first) == (set_provider_sql(), seq![target@]));
    out.push(first);
    let ghost head = seq![(set_provider_sql(), seq![target@])];
    assert(out@.map_values(|u: SqlUpdate| update_view(u)) =~= head);
    let ghost marks: Seq<(Seq<char>, Seq<Seq<char>>)> = Seq::empty();
    if contains_string(cols, "has_user_event") {
        for i in 0..ids.len()
            invariant
                out@.len() == 1 + i,
                out@.map_values(|u: SqlUpdate| update_view(u)) == head + strings_view(ids@).take(
                    i as int,
                ).map_values(|id: Seq<char>| (mark_user_event_sql(), seq![id])),
        {
            let u = SqlUpdate {
                sql: "UPDATE threads SET has_user_event = 1 WHERE id = ?1 AND COALESCE(has_user_event, 0) <> 1",
                params: vec![copy_str(ids[i].as_str())],
            };
            assert(strings_view(u.params@) =~= seq![ids@[i as int]@]);
            assert(update_view(u) == (mark_user_event_sql(), seq![ids@[i as int]@]));
            let ghost before = out@;
            out.push(u);
            assert(out@.map_values(|u: SqlUpdate| update_view(u)) =~= before.map_values(|u: SqlUpdate| update_view(u)).push(update_view(u)));
            assert(strings_view(ids@).take(i + 1) =~= strings_view(ids@).take(i as int).push(ids@[i as int]@));
            assert(out@.map_values(|u: SqlUpdate| update_view(u)) =~= head + strings_view(ids@).take(
                i + 1,
            ).map_values(|id: Seq<char>| (mark_user_event_sql(), seq![id])));
        }
        assert(strings_view(ids@).take(ids@.len() as int) =~= strings_view(ids@));
        proof { marks = strings_view(ids@).map_values(|id: Seq<char>| (mark_user_event_sql(), seq![id])); }
    }
    assert(out@.map_values(|u: SqlUpdate| update_view(u)) =~= head + marks);
    let k = out.len();
    if contains_string(cols, "cwd") {
        for i in 0..cwds.len()
            invariant
                out@.len() == k + i,
                out@.map_values(|u: SqlUpdate| update_view(u)) == head + marks + pairs_view(cwds@).take(
                    i as int,
                ).map_values(|p: (Seq<char>, Seq<char>)| (set_cwd_sql(), seq![p.1, p.0])),
        {
            let u = SqlUpdate {
                sql: "UPDATE threads SET cwd = ?1 WHERE id = ?2 AND COALESCE(cwd, '') <> ?1",
                params: vec![copy_str(cwds[i].1.as_str()), copy_str(cwds[i].0.as_str())],
            };
            assert(strings_view(u.params@) =~= seq![cwds@[i as int].1@, cwds@[i as int].0@]);
            assert(update_view(u) == (set_cwd_sql(), seq![cwds@[i as int].1@, cwds@[i as int].0@]));
            let ghost before = out@;
            out.push(u);
            assert(out@.map_values(|u: SqlUpdate| update_view(u)) =~= before.map_values(|u: SqlUpdate| update_view(u)).push(update_view(u)));
            assert(pairs_view(cwds@).take(i + 1) =~= pairs_view(cwds@).take(i as int).push(
                (cwds@[i as int].0@, cwds@[i as int].1@),
            ));
            assert(out@.map_values(|u: SqlUpdate| update_view(u)) =~= head + marks + pairs_view(cwds@).take(
                i + 1,
            ).map_values(|p: (Seq<char>, Seq<char>)| (set_cwd_sql(), seq![p.1, p.0])));
        }
        assert(pairs_view(cwds@).take(cwds@.len() as int) =~= pairs_view(cwds@));
    }
    proof {
        reveal_strlit("UPDATE threads SET model_provider = ?1 WHERE COALESCE(model_provider, '') <> ?1");
    }
    assert(out@.map_values(|u: SqlUpdate| update_view(u)) =~= sync_updates_spec(
        strings_view(cols@),
        target@,
        strings_view(ids@),
        pairs_view(cwds@),
    )->0);
    Some(out)
}


/// The note for a session database that did not open.
pub fn preview_open_warning(path: &str, reason: &str) -> (r: String)
    ensures
        r@ == "无法读取会话数据库: "@ + path@ + " ("@ + reason@ + ")"@,
{
    let a = concat_str("无法读取会话数据库: ", path);
    let b = concat_str(a.as_str(), " (");
    let c = concat_str(b.as_str(), reason);
    concat_str(c.as_str(), ")")
}

/// The refusal when a SQLite file to update does not open.
pub fn sync_open_error(path: &str, reason: &str) -> (r: crate::error::CodexxError)
    ensures
        r matches crate::error::CodexxError::Database(m) && m@ == "打开 SQLite 失败 "@ + path@ + ": "@ + reason@,
{
    let a = concat_str("打开 SQLite 失败 ", path);
    let b = concat_str(a.as_str(), ": ");
    crate::error::CodexxError::Database(concat_str(b.as_str(), reason))
}

/// A file extension that marks a SQLite database.
pub open spec fn sqlite_ext(ext: Seq<char>) -> bool {
    ext == "db"@ || ext == "sqlite"@ || ext == "sqlite3"@
}

pub fn is_sqlite_extension(ext: &str) -> (r: bool)
    ensures
        r == sqlite_ext(ext@),
{
    str_eq(ext, "db") || str_eq(ext, "sqlite") || str_eq(ext, "sqlite3")
}

/// The SQLite files to look at: those found (sorted), then the legacy state file when it
/// exists and is not among them.
pub fn sqlite_candidate_paths(found: Vec<String>, legacy: String, legacy_exists: bool) -> (r: Vec<String>)
    ensures
        strings_view(r@) == {
            let sorted = strings_view(crate::backups::sort_names_desc(found@).reverse());
            if legacy_exists && !sorted.contains(legacy@) { sorted.push(legacy@) } else { sorted }
        },
{
    let mut sorted = crate::backups::sort_names_asc(found);
    if legacy_exists && !contains_string(&sorted, legacy.as_str()) {
        let ghost before = sorted@;
        sorted.push(legacy);
        assert(strings_view(sorted@) =~= strings_view(before).push(sorted@.last()@));
    }
    sorted
}

} // verus!
