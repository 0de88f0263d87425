//! Where things live: the Codex directory, the app's own home, backups and the
//! cc-switch database candidates. Paths are held as text; joining goes through
//! `std::path::Path::join`.

use vstd::prelude::*;
use crate::text::{chars_of, copy_str, ends_with, opt_view, starts_with, strings_view, trim, trim_str};
use crate::error::CodexxError;

verus! {

/// A name that `Path::join` appends as one component, on every platform.
pub open spec fn plain_component(n: Seq<char>) -> bool {
    &&& n.len() > 0
    &&& component_chars_ok(n)
    &&& n != "."@
    &&& n != ".."@
}

/// No separator (`/`, `\\`) and no drive colon in `n`.
pub open spec fn component_chars_ok(n: Seq<char>) -> bool
    decreases n.len(),
{
    n.len() == 0 || (n[0] != '/' && n[0] != '\\' && n[0] != ':' && component_chars_ok(n.drop_first()))
}

/// `r` is `base` with `name` appended: directly, or after one separator (a slash or a
/// backslash, whichever the platform uses).
pub open spec fn joined(r: Seq<char>, base: Seq<char>, name: Seq<char>) -> bool {
    ||| r == base + name
    ||| r == base + seq!['/'] + name
    ||| r == base + seq!['\\'] + name
}

/// A Windows verbatim path (one that starts with backslash, backslash, `?`, backslash),
/// whose `.` and `..` components `Path::join` normalises away.
pub open spec fn verbatim(p: Seq<char>) -> bool {
    starts_with(p, seq!['\\', '\\', '?', '\\'])
}

/// `Path::new(base).join(name)`, as text. For a plain component the result ends with it;
/// unless `base` is a verbatim path, it is `base` followed by the component, with the
/// platform's separator between them where one is needed (which separator, and whether one
/// is inserted, depends on the platform and is not stated further).
#[verifier::external_body]
pub(crate) fn path_join(base: &str, name: &str) -> (r: String)
    ensures
        plain_component(name@) ==> ends_with(r@, name@),
        plain_component(name@) && !verbatim(base@) ==> joined(r@, base@, name@),
{
    std::path::Path::new(base).join(name).to_string_lossy().into_owned()
}

/// `dirs::home_dir()`, as text. It reads the environment, so nothing is stated of it.
#[verifier::external_body]
fn dirs_home_dir() -> (r: Option<String>) {
    dirs::home_dir().map(|p| p.to_string_lossy().into_owned())
}

/// `dirs::data_dir()`, as text. It reads the environment, so nothing is stated of it.
#[verifier::external_body]
fn dirs_data_dir() -> (r: Option<String>) {
    dirs::data_dir().map(|p| p.to_string_lossy().into_owned())
}

/// `dirs::data_local_dir()`, as text. It reads the environment, so nothing is stated of it.
#[verifier::external_body]
fn dirs_data_local_dir() -> (r: Option<String>) {
    dirs::data_local_dir().map(|p| p.to_string_lossy().into_owned())
}

/// The user's home directory, or `NoHomeDir`.
pub fn home_dir() -> (r: Result<String, CodexxError>)
    ensures
        r is Err ==> r matches Err(CodexxError::NoHomeDir),
{
    match dirs_home_dir() {
        Some(h) => Ok(h),
        None => Err(CodexxError::NoHomeDir),
    }
}

/// A trimmed, non-empty environment value, if there is one.
pub open spec fn env_dir(v: Option<String>) -> Option<Seq<char>> {
    match v {
        Some(s) => if trim(s@).len() > 0 { Some(trim(s@)) } else { None },
        None => None,
    }
}

fn env_dir_exec(v: &Option<String>) -> (r: Option<String>)
    ensures
        match r {
            Some(s) => env_dir(*v) == Some(s@),
            None => env_dir(*v) is None,
        },
{
    match v {
        Some(s) => {
            let t = trim_str(s.as_str());
            if t.as_str().is_empty() { None } else { Some(t) }
        },
        None => None,
    }
}

/// `home` joined with `name`, or `NoHomeDir`.
fn under_home(name: &str) -> (r: Result<String, CodexxError>)
    ensures
        match r {
            Ok(p) => plain_component(name@) ==> ends_with(p@, name@) && exists|home: Seq<char>|
                verbatim(home) || joined(p@, home, name@),
            Err(e) => e is NoHomeDir,
        },
{
    let home = home_dir()?;
    let p = path_join(home.as_str(), name);
    assert(plain_component(name@) ==> (verbatim(home@) || joined(p@, home@, name@)));
    Ok(p)
}

/// The app's own directory: `CODEXX_HOME` when it is set to something non-blank (the value
/// is passed in as `env_value`), else `.codexx` under the home directory (which the platform
/// reports, so it is not stated which one).
pub fn app_home(env_value: Option<String>) -> (r: Result<String, CodexxError>)
    ensures
        env_dir(env_value) matches Some(d) ==> r matches Ok(p) && p@ == d,
        env_dir(env_value) is None ==> match r {
            Ok(p) => ends_with(p@, ".codexx"@) && exists|home: Seq<char>| verbatim(home) || joined(p@, home, ".codexx"@),
            Err(e) => e is NoHomeDir,
        },
{
    proof {
        reveal_strlit(".codexx");
        reveal_strlit(".");
        reveal_strlit("..");
        reveal_with_fuel(component_chars_ok, 16);
    }
    match env_dir_exec(&env_value) {
        Some(d) => Ok(d),
        None => under_home(".codexx"),
    }
}

/// The Codex directory: `CODEX_HOME` when set to something non-blank, else `~/.codex`.
pub fn default_codex_dir(env_value: Option<String>) -> (r: Result<String, CodexxError>)
    ensures
        env_dir(env_value) matches Some(d) ==> r matches Ok(p) && p@ == d,
        env_dir(env_value) is None ==> match r {
            Ok(p) => ends_with(p@, ".codex"@) && exists|home: Seq<char>| verbatim(home) || joined(p@, home, ".codex"@),
            Err(e) => e is NoHomeDir,
        },
{
    proof {
        reveal_strlit(".codex");
        reveal_strlit(".");
        reveal_strlit("..");
        reveal_with_fuel(component_chars_ok, 16);
    }
    match env_dir_exec(&env_value) {
        Some(d) => Ok(d),
        None => under_home(".codex"),
    }
}

/// The Codex directory a request names (trimmed), or the default one.
pub fn resolve_codex_dir(config_dir: Option<String>, env_codex_home: Option<String>) -> (r: Result<
    String,
    CodexxError,
>)
    ensures
        env_dir(config_dir) matches Some(d) ==> r matches Ok(p) && p@ == d,
        env_dir(config_dir) is None ==> (env_dir(env_codex_home) matches Some(d) ==> r matches Ok(p)
            && p@ == d),
        env_dir(config_dir) is None && env_dir(env_codex_home) is None ==> match r {
            Ok(p) => ends_with(p@, ".codex"@) && exists|home: Seq<char>| verbatim(home) || joined(p@, home, ".codex"@),
            Err(e) => e is NoHomeDir,
        },
{
    match env_dir_exec(&config_dir) {
        Some(d) => Ok(d),
        None => default_codex_dir(env_codex_home),
    }
}

/// `<codex_dir>/config.toml`.
pub fn config_path(codex_dir: &str) -> (r: String)
    ensures
        ends_with(r@, "config.toml"@),
        !verbatim(codex_dir@) ==> joined(r@, codex_dir@, "config.toml"@),
{
    proof {
        reveal_strlit("config.toml");
        reveal_strlit(".");
        reveal_strlit("..");
        reveal_with_fuel(component_chars_ok, 16);
    }
    path_join(codex_dir, "config.toml")
}

/// `<codex_dir>/auth.json`.
pub fn auth_path(codex_dir: &str) -> (r: String)
    ensures
        ends_with(r@, "auth.json"@),
        !verbatim(codex_dir@) ==> joined(r@, codex_dir@, "auth.json"@),
{
    proof {
        reveal_strlit("auth.json");
        reveal_strlit(".");
        reveal_strlit("..");
        reveal_with_fuel(component_chars_ok, 16);
    }
    path_join(codex_dir, "auth.json")
}

/// `<app_home>/codexx.db`, the app's own database.
pub fn db_path(app_home: &str) -> (r: String)
    ensures
        ends_with(r@, "codexx.db"@),
        !verbatim(app_home@) ==> joined(r@, app_home@, "codexx.db"@),
{
    proof {
        reveal_strlit("codexx.db");
        reveal_strlit(".");
        reveal_strlit("..");
        reveal_with_fuel(component_chars_ok, 16);
    }
    path_join(app_home, "codexx.db")
}

/// `<app_home>/backups`.
pub fn backup_root(app_home: &str) -> (r: String)
    ensures
        ends_with(r@, "backups"@),
        !verbatim(app_home@) ==> joined(r@, app_home@, "backups"@),
{
    proof {
        reveal_strlit("backups");
        reveal_strlit(".");
        reveal_strlit("..");
        reveal_with_fuel(component_chars_ok, 16);
    }
    path_join(app_home, "backups")
}

/// `<codex_dir>/backups_state/provider-sync`.
pub fn provider_sync_backup_root(codex_dir: &str) -> (r: String)
    ensures
        ends_with(r@, "provider-sync"@),
        !verbatim(codex_dir@) ==> exists|state: Seq<char>|
            joined(state, codex_dir@, "backups_state"@) && (verbatim(state) || joined(
                r@,
                state,
                "provider-sync"@,
            )),
{
    proof {
        reveal_strlit("provider-sync");
        reveal_strlit("backups_state");
        reveal_strlit(".");
        reveal_strlit("..");
        reveal_with_fuel(component_chars_ok, 16);
    }
    let state = path_join(codex_dir, "backups_state");
    path_join(state.as_str(), "provider-sync")
}

/// A path every platform reads alike: it holds no backslash and does not start with two
/// slashes (which Windows reads as the start of a network share).
pub open spec fn portable_path(p: Seq<char>) -> bool {
    !p.contains('\\') && !starts_with(p, seq!['/', '/'])
}

/// A portable path without a drive letter (a `:` as its second character), whose case
/// Windows ignores when it compares paths.
pub open spec fn portable_plain_path(p: Seq<char>) -> bool {
    portable_path(p) && !(p.len() >= 2 && p[1] == ':')
}

/// The parts between the slashes of `p`, empty ones included.
pub open spec fn slash_parts(p: Seq<char>) -> Seq<Seq<char>>
    decreases p.len(),
{
    if p.len() == 0 {
        seq![Seq::empty()]
    } else if p.last() == '/' {
        slash_parts(p.drop_last()).push(Seq::empty())
    } else {
        let s = slash_parts(p.drop_last());
        s.update(s.len() - 1, s.last().push(p.last()))
    }
}

/// The parts that name something: neither empty nor `.`.
pub open spec fn named_parts(ps: Seq<Seq<char>>) -> Seq<Seq<char>>
    decreases ps.len(),
{
    if ps.len() == 0 {
        ps
    } else if ps.last().len() == 0 || ps.last() == seq!['.'] {
        named_parts(ps.drop_last())
    } else {
        named_parts(ps.drop_last()).push(ps.last())
    }
}

/// The components `Path::components` gives of a portable path: the root (written `/`) when
/// it starts with a slash, else `.` when its first part is `.`; then the parts between
/// slashes, leaving out empty parts (repeated and trailing slashes) and `.`.
pub open spec fn path_components(p: Seq<char>) -> Seq<Seq<char>> {
    let parts = slash_parts(p);
    let head: Seq<Seq<char>> = if p.len() > 0 && p[0] == '/' {
        seq![seq!['/']]
    } else if parts[0] == seq!['.'] {
        seq![seq!['.']]
    } else {
        Seq::empty()
    };
    head + named_parts(parts)
}

/// Two paths that `Path`'s `==` holds equal on every platform: the same text, or two
/// portable paths without a drive letter that have the same components.
pub open spec fn same_path(a: Seq<char>, b: Seq<char>) -> bool {
    ||| a == b
    ||| portable_plain_path(a) && portable_plain_path(b) && path_components(a) == path_components(b)
}

/// Two paths that `Path`'s `==` may hold equal: the same path, or any two of which one is
/// not a portable path without a drive letter (how the platform splits it is not stated).
pub open spec fn may_be_same_path(a: Seq<char>, b: Seq<char>) -> bool {
    same_path(a, b) || !portable_plain_path(a) || !portable_plain_path(b)
}

/// `Path::new(a) == Path::new(b)`, which compares the paths by their components. The same
/// text gives equal paths; two portable paths without a drive letter are equal exactly when
/// they have the same `path_components`, on every platform. For other paths the answer
/// depends on how the platform splits them, and only the first fact is stated.
#[verifier::external_body]
fn path_eq(a: &str, b: &str) -> (r: bool)
    ensures
        same_path(a@, b@) ==> r,
        r ==> may_be_same_path(a@, b@),
{
    std::path::Path::new(a) == std::path::Path::new(b)
}

/// `new` is `old`, or `old` with `c` appended: it is `old` when some entry is the same path
/// as `c`, and `c` is appended when no entry may be.
pub open spec fn pushed_unless_listed(old: Seq<Seq<char>>, new: Seq<Seq<char>>, c: Seq<char>) -> bool {
    &&& new == old || new == old.push(c)
    &&& (exists|i: int| 0 <= i < old.len() && same_path(#[trigger] old[i], c)) ==> new == old
    &&& new == old ==> exists|i: int| 0 <= i < old.len() && may_be_same_path(#[trigger] old[i], c)
}

/// Every path in `list` is portable and has no drive letter.
pub open spec fn all_portable(list: Seq<Seq<char>>) -> bool {
    forall|i: int| 0 <= i < list.len() ==> portable_plain_path(#[trigger] list[i])
}

/// `list` with `c` appended unless it holds the same path already.
pub open spec fn push_unique(list: Seq<Seq<char>>, c: Seq<char>) -> Seq<Seq<char>> {
    if exists|i: int| 0 <= i < list.len() && same_path(#[trigger] list[i], c) {
        list
    } else {
        list.push(c)
    }
}

/// Appends `candidate` to `candidates` unless it is absent or the same path is listed
/// already (paths compared as `Path` does). Where every path is portable and has no drive
/// letter, the result is exactly `push_unique`.
pub fn push_existing_candidate(candidates: &mut Vec<String>, candidate: Option<String>)
    ensures
        match candidate {
            Some(c) => {
                &&& pushed_unless_listed(strings_view(old(candidates)@), strings_view(final(candidates)@), c@)
                &&& (final(candidates)@ == old(candidates)@ || final(candidates)@ == old(candidates)@.push(c))
                &&& all_portable(strings_view(old(candidates)@)) && portable_plain_path(c@) ==> strings_view(
                    final(candidates)@,
                ) == push_unique(strings_view(old(candidates)@), c@)
            },
            None => final(candidates)@ == old(candidates)@,
        },
{
    let path = match candidate {
        Some(p) => p,
        None => return,
    };
    let ghost ov = strings_view(old(candidates)@);
    let mut i: usize = 0;
    while i < candidates.len()
        invariant
            i <= candidates@.len(),
            candidates@ == old(candidates)@,
            ov == strings_view(candidates@),
            candidate == Some(path),
            forall|k: int| 0 <= k < i ==> !same_path(#[trigger] ov[k], path@),
        decreases candidates@.len() - i,
    {
        if path_eq(candidates[i].as_str(), path.as_str()) {
            assert(ov[i as int] == candidates@[i as int]@);
            assert(may_be_same_path(ov[i as int], path@));
            assert(all_portable(ov) && portable_plain_path(path@) ==> same_path(ov[i as int], path@));
            return;
        }
        assert(ov[i as int] == candidates@[i as int]@);
        i = i + 1;
    }
    candidates.push(path);
    assert(strings_view(candidates@) =~= ov.push(path@));
}

/// The operating system the app runs on, for the places it looks for cc-switch.
#[derive(Clone, Copy, Debug, PartialEq, Eq, Structural)]
pub enum TargetOs {
    MacOs,
    Windows,
    Linux,
    Other,
}

/// What the environment says about where cc-switch may keep its data: `CC_SWITCH_HOME`,
/// `APPDATA`, `LOCALAPPDATA` and `XDG_DATA_HOME` as read (`None` when unset), and the
/// operating system.
#[derive(Clone, Debug)]
pub struct CcSwitchEnv {
    pub cc_switch_home: Option<String>,
    pub appdata: Option<String>,
    pub localappdata: Option<String>,
    pub xdg_data_home: Option<String>,
    pub os: TargetOs,
}

/// `r` is `base` with the folders `comps` appended one after another by `Path::join`: each
/// step ends with its folder, and is the previous path joined with it unless that path is a
/// verbatim one.
pub open spec fn path_under(r: Seq<char>, base: Seq<char>, comps: Seq<Seq<char>>) -> bool
    decreases comps.len(),
{
    if comps.len() == 0 {
        r == base
    } else {
        exists|mid: Seq<char>|
            path_under(mid, base, comps.drop_last()) && ends_with(r, comps.last()) && (!verbatim(mid)
                ==> joined(r, mid, comps.last()))
    }
}

/// The three folders cc-switch has used for its data under an application-data directory.
pub open spec fn app_dir_sources(d: Seq<char>) -> Seq<(Seq<char>, Seq<Seq<char>>)> {
    seq![
        (d, seq!["com.ccswitch.desktop"@, "cc-switch.db"@]),
        (d, seq!["cc-switch"@, "cc-switch.db"@]),
        (d, seq!["CC Switch"@, "cc-switch.db"@]),
    ]
}

/// `<v>/com.ccswitch.desktop/cc-switch.db` when the variable is set.
pub open spec fn var_source(v: Option<String>) -> Seq<(Seq<char>, Seq<Seq<char>>)> {
    match v {
        Some(s) => seq![(s@, seq!["com.ccswitch.desktop"@, "cc-switch.db"@])],
        None => Seq::empty(),
    }
}

/// The places cc-switch's database may be, in the order they are tried, each as a base
/// directory and the path under it: `CC_SWITCH_HOME` (trimmed, when not blank), then
/// `~/.cc-switch`, then under the data and local data directories, then the places of the
/// operating system.
pub open spec fn candidate_sources(
    env: CcSwitchEnv,
    home: Seq<char>,
    data_dir: Option<Seq<char>>,
    data_local_dir: Option<Seq<char>>,
) -> Seq<(Seq<char>, Seq<Seq<char>>)> {
    let a = match env_dir(env.cc_switch_home) {
        Some(d) => seq![(d, seq!["cc-switch.db"@])],
        None => Seq::empty(),
    };
    let b = a.push((home, seq![".cc-switch"@, "cc-switch.db"@]));
    let c = match data_dir {
        Some(d) => b + app_dir_sources(d),
        None => b,
    };
    let e = match data_local_dir {
        Some(d) => c + app_dir_sources(d),
        None => c,
    };
    match env.os {
        TargetOs::MacOs => e.push(
            (home, seq!["Library"@, "Application Support"@, "com.ccswitch.desktop"@, "cc-switch.db"@]),
        ),
        TargetOs::Windows => e + var_source(env.appdata) + var_source(env.localappdata),
        TargetOs::Linux => (e + var_source(env.xdg_data_home)).push(
            (home, seq![".local"@, "share"@, "com.ccswitch.desktop"@, "cc-switch.db"@]),
        ),
        TargetOs::Other => e,
    }
}

/// The paths in order, each kept only when no earlier one is the same path.
pub open spec fn dedup(cs: Seq<Seq<char>>) -> Seq<Seq<char>>
    decreases cs.len(),
{
    if cs.len() == 0 {
        Seq::empty()
    } else {
        push_unique(dedup(cs.drop_last()), cs.last())
    }
}

/// `hist` records the list after each path of `cs` was offered as `push_existing_candidate`
/// offers it: it starts empty, and each step either appends the path or leaves the list
/// as it is (see `pushed_unless_listed`).
pub open spec fn dedup_steps(hist: Seq<Seq<Seq<char>>>, cs: Seq<Seq<char>>) -> bool {
    &&& hist.len() == cs.len() + 1
    &&& hist[0].len() == 0
    &&& forall|k: int| 0 <= k < cs.len() ==> pushed_unless_listed(#[trigger] hist[k], hist[k + 1], cs[k])
}

/// `v` lists the paths `cs` in order, each left out when an earlier one is the same path
/// and kept when none may be.
pub open spec fn deduped(v: Seq<Seq<char>>, cs: Seq<Seq<char>>) -> bool {
    exists|hist: Seq<Seq<Seq<char>>>| #[trigger] dedup_steps(hist, cs) && hist.last() == v
}

/// `v` lists, without repeats, the paths the sources name.
pub open spec fn candidates_match(v: Seq<Seq<char>>, srcs: Seq<(Seq<char>, Seq<Seq<char>>)>) -> bool {
    exists|cs: Seq<Seq<char>>| sources_hold(v, cs, srcs)
}

/// `cs` are the paths the sources name, and `v` lists them without repeats.
pub open spec fn sources_hold(v: Seq<Seq<char>>, cs: Seq<Seq<char>>, srcs: Seq<(Seq<char>, Seq<Seq<char>>)>) -> bool {
    &&& cs.len() == srcs.len()
    &&& forall|k: int| 0 <= k < cs.len() ==> path_under(#[trigger] cs[k], srcs[k].0, srcs[k].1)
    &&& deduped(v, cs)
}

pub open spec fn strs_view(v: Seq<&str>) -> Seq<Seq<char>> {
    v.map_values(|c: &str| c@)
}

/// `base` with the folders `comps` joined on in turn.
fn join_all(base: &str, comps: &Vec<&str>) -> (r: String)
    requires
        forall|k: int| 0 <= k < comps@.len() ==> plain_component(#[trigger] comps@[k]@),
    ensures
        path_under(r@, base@, strs_view(comps@)),
{
    let ghost cv = strs_view(comps@);
    let mut cur = copy_str(base);
    assert(cv.take(0) =~= Seq::<Seq<char>>::empty());
    let mut i: usize = 0;
    while i < comps.len()
        invariant
            i <= comps@.len(),
            cv == strs_view(comps@),
            forall|k: int| 0 <= k < comps@.len() ==> plain_component(#[trigger] comps@[k]@),
            path_under(cur@, base@, cv.take(i as int)),
        decreases comps@.len() - i,
    {
        let c = comps[i];
        assert(plain_component(comps@[i as int]@));
        let next = path_join(cur.as_str(), c);
        assert(cv.take(i + 1).drop_last() =~= cv.take(i as int));
        assert(cv.take(i + 1).last() == c@);
        assert(path_under(next@, base@, cv.take(i + 1)));
        cur = next;
        i = i + 1;
    }
    assert(cv.take(comps@.len() as int) =~= cv);
    cur
}

/// Appends `base` joined with `comps` unless that path is listed already, and extends the
/// record of the sources pushed so far.
fn push_source(
    candidates: &mut Vec<String>,
    base: &str,
    comps: &Vec<&str>,
    Ghost(cs): Ghost<Seq<Seq<char>>>,
    Ghost(srcs): Ghost<Seq<(Seq<char>, Seq<Seq<char>>)>>,
) -> (out: Ghost<(Seq<Seq<char>>, Seq<(Seq<char>, Seq<Seq<char>>)>)>)
    requires
        forall|k: int| 0 <= k < comps@.len() ==> plain_component(#[trigger] comps@[k]@),
        sources_hold(strings_view(old(candidates)@), cs, srcs),
    ensures
        out@.1 == srcs.push((base@, strs_view(comps@))),
        sources_hold(strings_view(final(candidates)@), out@.0, out@.1),
{
    let path = join_all(base, comps);
    let ghost pv = path@;
    push_existing_candidate(candidates, Some(path));
    let ghost cs2 = cs.push(pv);
    let ghost srcs2 = srcs.push((base@, strs_view(comps@)));
    assert(cs2.drop_last() =~= cs);
    assert(cs2.last() == pv);
    let ghost hist = choose|hist: Seq<Seq<Seq<char>>>| #[trigger] dedup_steps(hist, cs) && hist.last() == strings_view(old(candidates)@);
    let ghost hist2 = hist.push(strings_view(candidates@));
    assert forall|k: int| 0 <= k < cs2.len() implies pushed_unless_listed(#[trigger] hist2[k], hist2[k + 1], cs2[k]) by {
        if k < cs.len() {
            assert(hist2[k] == hist[k] && hist2[k + 1] == hist[k + 1] && cs2[k] == cs[k]);
        } else {
            assert(hist2[k] == strings_view(old(candidates)@));
        }
    }
    assert(dedup_steps(hist2, cs2));
    assert(deduped(strings_view(candidates@), cs2));
    assert forall|k: int| 0 <= k < cs2.len() implies path_under(#[trigger] cs2[k], srcs2[k].0, srcs2[k].1) by {
        if k < cs.len() {
            assert(cs2[k] == cs[k]);
            assert(srcs2[k] == srcs[k]);
        }
    }
    Ghost((cs2, srcs2))
}

/// Pushes the three cc-switch folders under `base` (see `app_dir_sources`).
fn push_app_dirs(
    candidates: &mut Vec<String>,
    base: &str,
    Ghost(cs): Ghost<Seq<Seq<char>>>,
    Ghost(srcs): Ghost<Seq<(Seq<char>, Seq<Seq<char>>)>>,
) -> (out: Ghost<(Seq<Seq<char>>, Seq<(Seq<char>, Seq<Seq<char>>)>)>)
    requires
        sources_hold(strings_view(old(candidates)@), cs, srcs),
    ensures
        out@.1 == srcs + app_dir_sources(base@),
        sources_hold(strings_view(final(candidates)@), out@.0, out@.1),
{
    proof {
        lemma_folder_names();
    }
    let a = vec!["com.ccswitch.desktop", "cc-switch.db"];
    let g1 = push_source(candidates, base, &a, Ghost(cs), Ghost(srcs));
    let b = vec!["cc-switch", "cc-switch.db"];
    let g2 = push_source(candidates, base, &b, Ghost(g1@.0), Ghost(g1@.1));
    let c = vec!["CC Switch", "cc-switch.db"];
    let g3 = push_source(candidates, base, &c, Ghost(g2@.0), Ghost(g2@.1));
    assert(strs_view(a@) =~= seq!["com.ccswitch.desktop"@, "cc-switch.db"@]);
    assert(strs_view(b@) =~= seq!["cc-switch"@, "cc-switch.db"@]);
    assert(strs_view(c@) =~= seq!["CC Switch"@, "cc-switch.db"@]);
    assert(g3@.1 =~= srcs + app_dir_sources(base@));
    g3
}

/// Pushes `<v>/com.ccswitch.desktop/cc-switch.db` when the variable is set.
fn push_var(
    candidates: &mut Vec<String>,
    v: &Option<String>,
    Ghost(cs): Ghost<Seq<Seq<char>>>,
    Ghost(srcs): Ghost<Seq<(Seq<char>, Seq<Seq<char>>)>>,
) -> (out: Ghost<(Seq<Seq<char>>, Seq<(Seq<char>, Seq<Seq<char>>)>)>)
    requires
        sources_hold(strings_view(old(candidates)@), cs, srcs),
    ensures
        out@.1 == srcs + var_source(*v),
        sources_hold(strings_view(final(candidates)@), out@.0, out@.1),
{
    proof {
        lemma_folder_names();
    }
    match v {
        Some(base) => {
            let a = vec!["com.ccswitch.desktop", "cc-switch.db"];
            let g = push_source(candidates, base.as_str(), &a, Ghost(cs), Ghost(srcs));
            assert(strs_view(a@) =~= seq!["com.ccswitch.desktop"@, "cc-switch.db"@]);
            assert(g@.1 =~= srcs + var_source(*v));
            g
        },
        None => {
            assert(srcs + var_source(*v) =~= srcs);
            Ghost((cs, srcs))
        },
    }
}

/// The folder names under which cc-switch keeps its database are plain components.
proof fn lemma_folder_names()
    ensures
        plain_component("cc-switch.db"@),
        plain_component(".cc-switch"@),
        plain_component("com.ccswitch.desktop"@),
        plain_component("cc-switch"@),
        plain_component("CC Switch"@),
        plain_component("Library"@),
        plain_component("Application Support"@),
        plain_component(".local"@),
        plain_component("share"@),
{
    reveal_strlit("cc-switch.db");
    reveal_strlit(".cc-switch");
    reveal_strlit("com.ccswitch.desktop");
    reveal_strlit("cc-switch");
    reveal_strlit("CC Switch");
    reveal_strlit("Library");
    reveal_strlit("Application Support");
    reveal_strlit(".local");
    reveal_strlit("share");
    reveal_strlit(".");
    reveal_strlit("..");
    reveal_with_fuel(component_chars_ok, 21);
}

/// The places cc-switch's database may be (see `candidate_sources`), given the home
/// directory and the data directories the platform reports, without repeats.
pub fn ccswitch_candidates_from(
    env: &CcSwitchEnv,
    home: &str,
    data_dir: Option<String>,
    data_local_dir: Option<String>,
) -> (r: Vec<String>)
    ensures
        candidates_match(
            strings_view(r@),
            candidate_sources(*env, home@, opt_view(data_dir), opt_view(data_local_dir)),
        ),
{
    proof {
        lemma_folder_names();
    }
    let mut candidates: Vec<String> = Vec::new();
    let ghost mut cs: Seq<Seq<char>> = Seq::empty();
    let ghost mut srcs: Seq<(Seq<char>, Seq<Seq<char>>)> = Seq::empty();
    assert(dedup_steps(seq![strings_view(candidates@)], cs));
    assert(deduped(strings_view(candidates@), cs));
    match env_dir_exec(&env.cc_switch_home) {
        Some(d) => {
            let comps = vec!["cc-switch.db"];
            let g = push_source(&mut candidates, d.as_str(), &comps, Ghost(cs), Ghost(srcs));
            assert(strs_view(comps@) =~= seq!["cc-switch.db"@]);
            proof {
                cs = g@.0;
                srcs = g@.1;
            }
        },
        None => {},
    }
    let comps = vec![".cc-switch", "cc-switch.db"];
    let g = push_source(&mut candidates, home, &comps, Ghost(cs), Ghost(srcs));
    assert(strs_view(comps@) =~= seq![".cc-switch"@, "cc-switch.db"@]);
    proof {
        cs = g@.0;
        srcs = g@.1;
    }
    if let Some(d) = &data_dir {
        let g = push_app_dirs(&mut candidates, d.as_str(), Ghost(cs), Ghost(srcs));
        proof {
            cs = g@.0;
            srcs = g@.1;
        }
    }
    if let Some(d) = &data_local_dir {
        let g = push_app_dirs(&mut candidates, d.as_str(), Ghost(cs), Ghost(srcs));
        proof {
            cs = g@.0;
            srcs = g@.1;
        }
    }
    let ghost e = srcs;
    match env.os {
        TargetOs::MacOs => {
            let comps = vec!["Library", "Application Support", "com.ccswitch.desktop", "cc-switch.db"];
            let g = push_source(&mut candidates, home, &comps, Ghost(cs), Ghost(srcs));
            assert(strs_view(comps@) =~= seq![
                "Library"@,
                "Application Support"@,
                "com.ccswitch.desktop"@,
                "cc-switch.db"@,
            ]);
            proof {
                cs = g@.0;
                srcs = g@.1;
            }
        },
        TargetOs::Windows => {
            let g = push_var(&mut candidates, &env.appdata, Ghost(cs), Ghost(srcs));
            let g2 = push_var(&mut candidates, &env.localappdata, Ghost(g@.0), Ghost(g@.1));
            proof {
                cs = g2@.0;
                srcs = g2@.1;
            }
        },
        TargetOs::Linux => {
            let g = push_var(&mut candidates, &env.xdg_data_home, Ghost(cs), Ghost(srcs));
            let comps = vec![".local", "share", "com.ccswitch.desktop", "cc-switch.db"];
            let g2 = push_source(&mut candidates, home, &comps, Ghost(g@.0), Ghost(g@.1));
            assert(strs_view(comps@) =~= seq![".local"@, "share"@, "com.ccswitch.desktop"@, "cc-switch.db"@]);
            proof {
                cs = g2@.0;
                srcs = g2@.1;
            }
        },
        TargetOs::Other => {},
    }
    assert(srcs =~= candidate_sources(*env, home@, opt_view(data_dir), opt_view(data_local_dir)));
    assert(sources_hold(strings_view(candidates@), cs, srcs));
    candidates
}

/// The places cc-switch's database may be, in the order they are tried, without repeats
/// (see `candidate_sources`). The home and data directories come from the platform, so
/// what is stated holds for whichever directories it reports.
pub fn ccswitch_db_candidates(env: &CcSwitchEnv) -> (r: Result<Vec<String>, CodexxError>)
    ensures
        match r {
            Ok(v) => exists|home: Seq<char>, data: Option<Seq<char>>, local: Option<Seq<char>>|
                candidates_match(strings_view(v@), #[trigger] candidate_sources(*env, home, data, local)),
            Err(e) => e is NoHomeDir,
        },
{
    let home = home_dir()?;
    let data = dirs_data_dir();
    let local = dirs_data_local_dir();
    let v = ccswitch_candidates_from(env, home.as_str(), data, local);
    Ok(v)
}

/// The first candidate that exists, else the first candidate; `exists[i]` tells whether
/// `candidates[i]` is on disk.
pub open spec fn default_db_spec(candidates: Seq<Seq<char>>, exists: Seq<bool>) -> Option<Seq<char>> {
    if exists_index(exists, candidates.len() as int) is Some {
        Some(candidates[exists_index(exists, candidates.len() as int)->0])
    } else if candidates.len() > 0 {
        Some(candidates[0])
    } else {
        None
    }
}

/// The least `i < n` with `exists[i]`.
pub open spec fn exists_index(exists: Seq<bool>, n: int) -> Option<int>
    decreases n,
{
    if n <= 0 {
        None
    } else if exists_index(exists, n - 1) is Some {
        exists_index(exists, n - 1)
    } else if n - 1 < exists.len() && exists[n - 1] {
        Some(n - 1)
    } else {
        None
    }
}

/// The cc-switch database to read when none is named: the first candidate on disk, else the
/// first candidate.
pub fn default_ccswitch_db_path(candidates: &Vec<String>, exists: &Vec<bool>) -> (r: Result<
    String,
    CodexxError,
>)
    ensures
        match default_db_spec(strings_view(candidates@), exists@) {
            Some(p) => r matches Ok(s) && s@ == p,
            None => r matches Err(CodexxError::Config(m)) && m@ == "无法生成 cc-switch 数据库候选路径"@,
        },
{
    let n = candidates.len();
    let mut i: usize = 0;
    while i < n
        invariant
            n == candidates@.len(),
            i <= n,
            exists_index(exists@, i as int) is None,
        decreases n - i,
    {
        if i < exists.len() && exists[i] {
            assert(exists_index(exists@, i + 1) == Some(i as int));
            proof { lemma_exists_index_stable(exists@, i + 1, n as int); }
            return Ok(copy_str(candidates[i].as_str()));
        }
        i = i + 1;
    }
    if n > 0 {
        Ok(copy_str(candidates[0].as_str()))
    } else {
        Err(CodexxError::Config(copy_str("无法生成 cc-switch 数据库候选路径")))
    }
}

proof fn lemma_exists_index_stable(exists: Seq<bool>, m: int, n: int)
    requires
        m <= n,
        exists_index(exists, m) is Some,
    ensures
        exists_index(exists, n) == exists_index(exists, m),
    decreases n - m,
{
    if m < n {
        lemma_exists_index_stable(exists, m, n - 1);
    }
}

} // verus!
