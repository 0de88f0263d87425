//! Backups of `config.toml` and `auth.json`: their ids and records, the listing order, and
//! which provider-sync snapshots are pruned.

use vstd::prelude::*;
use crate::text::{chars_of, concat_str, copy_str};

verus! {

/// What a backup directory's `meta.json` records.
#[derive(Clone, Debug)]
pub struct BackupMeta {
    pub id: String,
    pub action: String,
    pub created_at: String,
    pub codex_dir: String,
    pub config_path: String,
    pub auth_path: String,
    pub had_config: bool,
    pub had_auth: bool,
}

/// A backup as the app lists it.
#[derive(Clone, Debug)]
pub struct BackupEntry {
    pub id: String,
    pub action: String,
    pub created_at: String,
    pub path: String,
    pub had_config: bool,
    pub had_auth: bool,
}

/// A backup's id: its time stamp and the action that made it.
pub fn backup_id(stamp: &str, action: &str) -> (r: String)
    ensures
        r@ == stamp@ + "-"@ + action@,
{
    let a = concat_str(stamp, "-");
    concat_str(a.as_str(), action)
}

/// `chrono::Local::now().format(fmt)`, as text, for the two time-stamp formats the backups
/// use. It reads the clock, so nothing is stated of it.
#[verifier::external_body]
fn local_now_formatted(fmt: &str) -> (r: String)
    requires
        fmt@ == "%Y%m%d-%H%M%S"@ || fmt@ == "%Y%m%d%H%M%S"@,
{
    chrono::Local::now().format(fmt).to_string()
}

/// A new backup's id: the local time (`%Y%m%d-%H%M%S`) and the action that makes it.
pub fn new_backup_id(action: &str) -> (r: String)
    ensures
        exists|stamp: Seq<char>| r@ == stamp + "-"@ + action@,
{
    let stamp = local_now_formatted("%Y%m%d-%H%M%S");
    let r = backup_id(stamp.as_str(), action);
    assert(r@ == stamp@ + "-"@ + action@);
    r
}

/// The listing entry of a backup directory at `path` with record `meta`.
pub fn read_backup_entry(meta: BackupMeta, path: String) -> (r: BackupEntry)
    ensures
        r.id == meta.id,
        r.action == meta.action,
        r.created_at == meta.created_at,
        r.path == path,
        r.had_config == meta.had_config,
        r.had_auth == meta.had_auth,
{
    BackupEntry {
        id: meta.id,
        action: meta.action,
        created_at: meta.created_at,
        path,
        had_config: meta.had_config,
        had_auth: meta.had_auth,
    }
}

/// `String`'s order: code point by code point, a prefix first.
pub open spec fn str_lt(a: Seq<char>, b: Seq<char>) -> bool
    decreases a.len(),
{
    if a.len() == 0 {
        b.len() > 0
    } else if b.len() == 0 {
        false
    } else if a[0] != b[0] {
        a[0] < b[0]
    } else {
        str_lt(a.drop_first(), b.drop_first())
    }
}

pub fn string_lt(a: &str, b: &str) -> (r: bool)
    ensures
        r == str_lt(a@, b@),
{
    let x = chars_of(a);
    let y = chars_of(b);
    let mut i: usize = 0;
    assert(x@.subrange(0, x@.len() as int) =~= x@);
    assert(y@.subrange(0, y@.len() as int) =~= y@);
    while i < x.len() && i < y.len() && x[i] == y[i]
        invariant
            i <= x@.len(),
            i <= y@.len(),
            str_lt(x@, y@) == str_lt(x@.subrange(i as int, x@.len() as int), y@.subrange(i as int, y@.len() as int)),
        decreases x@.len() - i,
    {
        assert(x@.subrange(i as int, x@.len() as int).drop_first() =~= x@.subrange(i + 1, x@.len() as int));
        assert(y@.subrange(i as int, y@.len() as int).drop_first() =~= y@.subrange(i + 1, y@.len() as int));
        i = i + 1;
    }
    let ghost xs = x@.subrange(i as int, x@.len() as int);
    let ghost ys = y@.subrange(i as int, y@.len() as int);
    if i < x.len() && i < y.len() {
        assert(xs[0] == x@[i as int] && ys[0] == y@[i as int]);
    }
    if i == x.len() {
        i < y.len()
    } else if i == y.len() {
        false
    } else {
        x[i] < y[i]
    }
}

/// Where a stable newest-first sort by `created_at` puts `x` among the sorted `s`.
pub open spec fn backup_pos(s: Seq<BackupEntry>, x: BackupEntry, n: int) -> int
    decreases n,
{
    if n <= 0 {
        0
    } else if backup_pos(s, x, n - 1) < n - 1 {
        backup_pos(s, x, n - 1)
    } else if n - 1 < s.len() && str_lt(s[n - 1].created_at@, x.created_at@) {
        n - 1
    } else {
        n
    }
}

/// Backups newest first (a stable sort by `created_at`, descending).
pub open spec fn sort_backups_spec(s: Seq<BackupEntry>) -> Seq<BackupEntry>
    decreases s.len(),
{
    if s.len() == 0 {
        s
    } else {
        let sorted = sort_backups_spec(s.drop_last());
        sorted.insert(backup_pos(sorted, s.last(), sorted.len() as int), s.last())
    }
}

proof fn lemma_backup_pos_bounds(s: Seq<BackupEntry>, x: BackupEntry, n: int)
    requires
        0 <= n,
    ensures
        0 <= backup_pos(s, x, n) <= n,
    decreases n,
{
    if n > 0 {
        lemma_backup_pos_bounds(s, x, n - 1);
    }
}

/// Sorting keeps the number of backups.
pub proof fn lemma_sort_backups_len(s: Seq<BackupEntry>)
    ensures
        sort_backups_spec(s).len() == s.len(),
    decreases s.len(),
{
    if s.len() > 0 {
        lemma_sort_backups_len(s.drop_last());
        let sorted = sort_backups_spec(s.drop_last());
        lemma_backup_pos_bounds(sorted, s.last(), sorted.len() as int);
    }
}

proof fn lemma_backup_pos_stable(s: Seq<BackupEntry>, x: BackupEntry, m: int, n: int)
    requires
        0 <= m <= n,
        backup_pos(s, x, m) < m,
    ensures
        backup_pos(s, x, n) == backup_pos(s, x, m),
    decreases n - m,
{
    if m < n {
        lemma_backup_pos_stable(s, x, m, n - 1);
    }
}

/// The backups, newest first.
pub fn sort_backups(entries: Vec<BackupEntry>) -> (r: Vec<BackupEntry>)
    ensures
        r@ == sort_backups_spec(entries@),
{
    let ghost all = entries@;
    let mut rest = entries;
    let mut out: Vec<BackupEntry> = Vec::new();
    let mut i: usize = 0;
    let n = rest.len();
    assert(all.take(0) =~= Seq::<BackupEntry>::empty());
    while rest.len() > 0
        invariant
            n == all.len(),
            i + rest@.len() == n,
            rest@ == all.subrange(i as int, n as int),
            out@ == sort_backups_spec(all.take(i as int)),
        decreases rest@.len(),
    {
        let x = rest.remove(0);
        assert(x == all[i as int]);
        assert(rest@ =~= all.subrange(i + 1, n as int));
        proof {
            lemma_sort_backups_len(all.take(i as int));
        }
        let m = out.len();
        let mut p: usize = 0;
        while p < m && !string_lt(out[p].created_at.as_str(), x.created_at.as_str())
            invariant
                p <= m,
                m == out@.len(),
                backup_pos(out@, x, p as int) == p,
            decreases m - p,
        {
            p = p + 1;
        }
        proof {
            if p < m {
                assert(backup_pos(out@, x, p + 1) == p);
                lemma_backup_pos_stable(out@, x, p + 1, m as int);
            }
        }
        out.insert(p, x);
        assert(all.take(i + 1).drop_last() =~= all.take(i as int));
        i = i + 1;
    }
    assert(all.take(n as int) =~= all);
    out
}

/// The newest backup among `entries`, if any.
pub fn latest_backup(entries: Vec<BackupEntry>) -> (r: Option<BackupEntry>)
    ensures
        match r {
            Some(b) => sort_backups_spec(entries@).len() > 0 && b == sort_backups_spec(entries@)[0],
            None => entries@.len() == 0,
        },
{
    proof { lemma_sort_backups_len(entries@); }
    let mut sorted = sort_backups(entries);
    if sorted.len() == 0 {
        None
    } else {
        Some(sorted.remove(0))
    }
}

/// Where a stable sort by name, descending, puts `x` among the sorted `s`.
pub open spec fn name_pos(s: Seq<String>, x: String, n: int) -> int
    decreases n,
{
    if n <= 0 {
        0
    } else if name_pos(s, x, n - 1) < n - 1 {
        name_pos(s, x, n - 1)
    } else if n - 1 < s.len() && str_lt(s[n - 1]@, x@) {
        n - 1
    } else {
        n
    }
}

/// Names in descending order (stable).
pub open spec fn sort_names_desc(s: Seq<String>) -> Seq<String>
    decreases s.len(),
{
    if s.len() == 0 {
        s
    } else {
        let sorted = sort_names_desc(s.drop_last());
        sorted.insert(name_pos(sorted, s.last(), sorted.len() as int), s.last())
    }
}

proof fn lemma_name_pos_bounds(s: Seq<String>, x: String, n: int)
    requires
        0 <= n,
    ensures
        0 <= name_pos(s, x, n) <= n,
    decreases n,
{
    if n > 0 {
        lemma_name_pos_bounds(s, x, n - 1);
    }
}

/// Sorting keeps the number of names.
pub proof fn lemma_sort_names_len(s: Seq<String>)
    ensures
        sort_names_desc(s).len() == s.len(),
    decreases s.len(),
{
    if s.len() > 0 {
        lemma_sort_names_len(s.drop_last());
        let sorted = sort_names_desc(s.drop_last());
        lemma_name_pos_bounds(sorted, s.last(), sorted.len() as int);
    }
}

proof fn lemma_name_pos_stable(s: Seq<String>, x: String, m: int, n: int)
    requires
        0 <= m <= n,
        name_pos(s, x, m) < m,
    ensures
        name_pos(s, x, n) == name_pos(s, x, m),
    decreases n - m,
{
    if m < n {
        lemma_name_pos_stable(s, x, m, n - 1);
    }
}

fn sort_names(names: Vec<String>) -> (r: Vec<String>)
    ensures
        r@ == sort_names_desc(names@),
{
    let ghost all = names@;
    let mut rest = names;
    let mut out: Vec<String> = Vec::new();
    let mut i: usize = 0;
    let n = rest.len();
    assert(all.take(0) =~= Seq::<String>::empty());
    while rest.len() > 0
        invariant
            n == all.len(),
            i + rest@.len() == n,
            rest@ == all.subrange(i as int, n as int),
            out@ == sort_names_desc(all.take(i as int)),
        decreases rest@.len(),
    {
        let x = rest.remove(0);
        assert(x == all[i as int]);
        assert(rest@ =~= all.subrange(i + 1, n as int));
        proof {
            lemma_sort_names_len(all.take(i as int));
        }
        let m = out.len();
        let mut p: usize = 0;
        while p < m && !string_lt(out[p].as_str(), x.as_str())
            invariant
                p <= m,
                m == out@.len(),
                name_pos(out@, x, p as int) == p,
            decreases m - p,
        {
            p = p + 1;
        }
        proof {
            if p < m {
                assert(name_pos(out@, x, p + 1) == p);
                lemma_name_pos_stable(out@, x, p + 1, m as int);
            }
        }
        out.insert(p, x);
        assert(all.take(i + 1).drop_last() =~= all.take(i as int));
        i = i + 1;
    }
    assert(all.take(n as int) =~= all);
    out
}

/// Names in ascending order.
pub fn sort_names_asc(names: Vec<String>) -> (r: Vec<String>)
    ensures
        r@ == sort_names_desc(names@).reverse(),
{
    let d = sort_names(names);
    let ghost dv = d@;
    let mut rest = d;
    let mut out: Vec<String> = Vec::new();
    while rest.len() > 0
        invariant
            out@ + rest@.reverse() == dv.reverse(),
        decreases rest@.len(),
    {
        let ghost before = rest@;
        let x = rest.pop().unwrap();
        assert(before =~= rest@.push(x));
        assert(before.reverse() =~= seq![x] + rest@.reverse());
        out.push(x);
        assert(out@ + rest@.reverse() =~= dv.reverse());
    }
    assert(out@ + Seq::<String>::empty().reverse() =~= out@);
    out
}

/// The local time now, as RFC 3339 (`chrono::Local::now().to_rfc3339()`). It reads the clock,
/// so nothing is stated of it.
#[verifier::external_body]
pub fn now_rfc3339() -> (r: String) {
    chrono::Local::now().to_rfc3339()
}

/// How many provider-sync snapshots are kept.
pub open spec fn kept_snapshots() -> int {
    5
}

/// The provider-sync snapshots to delete: all but the five with the greatest names (names
/// are time stamps, so these are the newest).
pub fn snapshots_to_prune(names: Vec<String>) -> (r: Vec<String>)
    ensures
        r@ == if sort_names_desc(names@).len() > kept_snapshots() {
            sort_names_desc(names@).subrange(kept_snapshots(), sort_names_desc(names@).len() as int)
        } else {
            Seq::empty()
        },
{
    proof { lemma_sort_names_len(names@); }
    let mut sorted = sort_names(names);
    if sorted.len() > 5 {
        let r = sorted.split_off(5);
        r
    } else {
        Vec::new()
    }
}

/// The name of a provider-sync snapshot: the time stamp, with `-<suffix>` when an earlier
/// try was taken.
pub fn sync_snapshot_name(stamp: &str, suffix: u64) -> (r: String)
    ensures
        r@ == if suffix == 0 { stamp@ } else { stamp@ + "-"@ + crate::names::digits(suffix as nat) },
{
    if suffix == 0 {
        copy_str(stamp)
    } else {
        let a = concat_str(stamp, "-");
        let d = crate::names::digits_text(suffix);
        let ds = crate::text::string_of(d.as_slice());
        concat_str(a.as_str(), ds.as_str())
    }
}

/// A provider-sync snapshot's name taken now (the local time as `%Y%m%d%H%M%S`), with
/// `-<suffix>` when an earlier try was taken (see `sync_snapshot_name`).
pub fn new_sync_snapshot_name(suffix: u64) -> (r: String)
    ensures
        exists|stamp: Seq<char>|
            r@ == if suffix == 0 { stamp } else { stamp + "-"@ + crate::names::digits(suffix as nat) },
{
    let stamp = local_now_formatted("%Y%m%d%H%M%S");
    let r = sync_snapshot_name(stamp.as_str(), suffix);
    assert(r@ == if suffix == 0 { stamp@ } else { stamp@ + "-"@ + crate::names::digits(suffix as nat) });
    r
}

} // verus!
