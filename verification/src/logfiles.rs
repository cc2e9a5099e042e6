//! Choosing the combat-log file to follow.
//!
//! WoW writes `WoWCombatLog*.txt` into `<install>/<flavor>/Logs`; the newest
//! such file modified within the last few hours is the one to tail. Where no
//! `Logs` directory is configured, the usual install places are tried.

use vstd::prelude::*;

use crate::paths::{is_plain_component, path_join, path_joined};
use crate::text::string_from_chars;

verus! {

/// File-name pattern for every WoW flavor.
pub const LOG_FILE_PATTERN: &'static str = "^WoWCombatLog.*\\.txt$";

/// Log files not touched within this many milliseconds are ignored.
pub const MAX_AGE_MS: i64 = 21600000;

#[verifier::external_type_specification]
#[verifier::external_body]
pub struct ExRegex(regex::Regex);

/// Whether `regex::Regex::new` accepts the pattern text.
pub uninterp spec fn regex_compiles(pattern: Seq<char>) -> bool;

/// Whether the regular expression written `pattern` matches somewhere in
/// `haystack` (`regex::Regex::is_match`).
pub uninterp spec fn regex_is_match(pattern: Seq<char>, haystack: Seq<char>) -> bool;

/// A compiled regular expression together with the text it was compiled from.
pub struct NamePattern {
    source: String,
    compiled: regex::Regex,
}

impl View for NamePattern {
    type V = Seq<char>;

    closed spec fn view(&self) -> Seq<char> {
        self.source@
    }
}

/// Compiles `pattern` with `regex::Regex::new`, keeping its text beside it.
/// The contract claims that compiling succeeds exactly when the pattern text
/// is one the regex crate accepts, which depends on the text alone, and that
/// the result carries that text.
#[verifier::external_body]
fn compile_regex(pattern: &str) -> (r: Option<NamePattern>)
    ensures
        r is Some <==> regex_compiles(pattern@),
        r matches Some(p) ==> p@ == pattern@,
{
    match regex::Regex::new(pattern) {
        Ok(compiled) => Some(NamePattern { source: pattern.to_string(), compiled }),
        Err(_) => None,
    }
}

/// Runs `regex::Regex::is_match` of the compiled pattern on `haystack`. The
/// contract claims the answer is a function of the pattern text and the
/// haystack alone.
#[verifier::external_body]
fn regex_match(pattern: &NamePattern, haystack: &str) -> (b: bool)
    ensures
        b == regex_is_match(pattern@, haystack@),
{
    pattern.compiled.is_match(haystack)
}

impl NamePattern {
    /// Compiles `pattern`; `None` when the regex crate refuses it.
    pub fn new(pattern: &str) -> (r: Option<NamePattern>)
        ensures
            r is Some <==> regex_compiles(pattern@),
            r matches Some(p) ==> p@ == pattern@,
    {
        compile_regex(pattern)
    }

    /// Whether the pattern matches somewhere in `name`.
    pub fn is_match(&self, name: &str) -> (b: bool)
        ensures
            b == regex_is_match(self@, name@),
    {
        regex_match(self, name)
    }
}

/// The pattern that combat-log file names match; `None` only if the regex
/// crate refuses [`LOG_FILE_PATTERN`].
pub fn log_file_pattern() -> (r: Option<NamePattern>)
    ensures
        r is Some <==> regex_compiles(LOG_FILE_PATTERN@),
        r matches Some(p) ==> p@ == LOG_FILE_PATTERN@,
{
    NamePattern::new(LOG_FILE_PATTERN)
}

/// A file of the log directory: its name and its modification time in
/// milliseconds since the Unix epoch.
pub struct LogFileEntry {
    pub name: String,
    pub modified_ms: i64,
}

/// Whether entry `i` is a log file worth attaching to: its name matches the
/// pattern and it was modified at most [`MAX_AGE_MS`] before `now_ms`.
pub open spec fn is_fresh_log(
    entries: Seq<LogFileEntry>,
    i: int,
    pattern: Seq<char>,
    now_ms: i64,
) -> bool {
    &&& 0 <= i < entries.len()
    &&& regex_is_match(pattern, entries[i].name@)
    &&& now_ms - entries[i].modified_ms <= MAX_AGE_MS
}

/// The newest log file among `entries`: the index of a fresh log file
/// (see [`is_fresh_log`]) whose modification time no other fresh log file
/// exceeds; of several equally new ones, the last. `None` when no entry is a
/// fresh log file.
pub fn newest_log(entries: &Vec<LogFileEntry>, pattern: &NamePattern, now_ms: i64) -> (r: Option<
    usize,
>)
    ensures
        match r {
            Some(i) => {
                &&& is_fresh_log(entries@, i as int, pattern@, now_ms)
                &&& forall|j: int|
                    is_fresh_log(entries@, j, pattern@, now_ms) ==> entries@[j].modified_ms
                        <= entries@[i as int].modified_ms
                &&& forall|j: int|
                    i < j && is_fresh_log(entries@, j, pattern@, now_ms) ==> entries@[j].modified_ms
                        < entries@[i as int].modified_ms
            },
            None => forall|j: int| !is_fresh_log(entries@, j, pattern@, now_ms),
        },
{
    let mut best: Option<usize> = None;
    let n = entries.len();
    let mut i: usize = 0;
    while i < n
        invariant
            i <= n == entries.len(),
            match best {
                Some(b) => {
                    &&& b < i
                    &&& is_fresh_log(entries@, b as int, pattern@, now_ms)
                    &&& forall|j: int|
                        0 <= j < i && is_fresh_log(entries@, j, pattern@, now_ms)
                            ==> entries@[j].modified_ms <= entries@[b as int].modified_ms
                    &&& forall|j: int|
                        b < j < i && is_fresh_log(entries@, j, pattern@, now_ms)
                            ==> entries@[j].modified_ms < entries@[b as int].modified_ms
                },
                None => forall|j: int| 0 <= j < i ==> !is_fresh_log(entries@, j, pattern@, now_ms),
            },
        decreases n - i,
    {
        let e = &entries[i];
        let age: i128 = (now_ms as i128) - (e.modified_ms as i128);
        if pattern.is_match(e.name.as_str()) && age <= (MAX_AGE_MS as i128) {
            match best {
                Some(b) => {
                    if entries[b].modified_ms <= e.modified_ms {
                        best = Some(i);
                    }
                },
                None => {
                    best = Some(i);
                },
            }
        }
        i += 1;
    }
    best
}

// ---------------------------------------------------------------------------
// Where WoW keeps its logs
// ---------------------------------------------------------------------------

/// The folder a WoW install lives in.
pub const WOW_FOLDER: &'static str = "World of Warcraft";

/// The root of drive `d`, written `d:\`.
pub open spec fn drive_root(d: char) -> Seq<char> {
    seq![d, ':', '\\']
}

/// The game flavors, in the order their logs are looked for.
pub open spec fn flavor_name(f: int) -> Seq<char> {
    if f == 0 {
        "_retail_"@
    } else if f == 1 {
        "_classic_"@
    } else {
        "_classic_era_"@
    }
}

/// The texts of `dirs`.
pub open spec fn texts(dirs: Seq<String>) -> Seq<Seq<char>> {
    dirs.map_values(|d: String| d@)
}

/// Whether `root` is the `k`-th place a WoW install is looked for: first
/// [`WOW_FOLDER`] in each of `program_dirs`, then, for each of `drives` in
/// turn, `d:\World of Warcraft` and `d:\Games\World of Warcraft`.
pub open spec fn is_install_root(
    root: Seq<char>,
    program_dirs: Seq<Seq<char>>,
    drives: Seq<char>,
    k: int,
) -> bool {
    let p = program_dirs.len() as int;
    if k < p {
        path_joined(root, program_dirs[k], WOW_FOLDER@)
    } else if (k - p) % 2 == 0 {
        path_joined(root, drive_root(drives[(k - p) / 2]), WOW_FOLDER@)
    } else {
        exists|games: Seq<char>|
            #[trigger] path_joined(games, drive_root(drives[(k - p) / 2]), "Games"@)
                && path_joined(root, games, WOW_FOLDER@)
    }
}

/// Whether `dir` is the `Logs` directory of flavor `flavor` of the install
/// at `root`.
pub open spec fn is_logs_dir_of(dir: Seq<char>, root: Seq<char>, flavor: Seq<char>) -> bool {
    exists|fl: Seq<char>| #[trigger] path_joined(fl, root, flavor) && path_joined(dir, fl, "Logs"@)
}

/// Whether `dir` is the `Logs` directory of flavor `flavor` of the `k`-th
/// place a WoW install is looked for (see [`is_install_root`]).
pub open spec fn is_logs_candidate(
    dir: Seq<char>,
    program_dirs: Seq<Seq<char>>,
    drives: Seq<char>,
    k: int,
    flavor: Seq<char>,
) -> bool {
    exists|root: Seq<char>|
        #[trigger] is_install_root(root, program_dirs, drives, k) && is_logs_dir_of(dir, root, flavor)
}

proof fn lemma_names_are_plain()
    ensures
        is_plain_component(WOW_FOLDER@),
        is_plain_component("Games"@),
        is_plain_component("Logs"@),
        is_plain_component(flavor_name(0)),
        is_plain_component(flavor_name(1)),
        is_plain_component(flavor_name(2)),
{
    reveal_strlit("World of Warcraft");
    reveal_strlit("Games");
    reveal_strlit("Logs");
    reveal_strlit("_retail_");
    reveal_strlit("_classic_");
    reveal_strlit("_classic_era_");
    assert(WOW_FOLDER@.len() == 17);
    assert("Games"@.len() == 5);
    assert("Logs"@.len() == 4);
    assert(flavor_name(0).len() == 8);
    assert(flavor_name(1).len() == 9);
    assert(flavor_name(2).len() == 13);
}

/// The text of the root of drive `d`, `d:\`.
fn drive_root_text(d: char) -> (r: String)
    ensures
        r@ == drive_root(d),
{
    let mut v: Vec<char> = Vec::new();
    v.push(d);
    v.push(':');
    v.push('\\');
    assert(v@ =~= drive_root(d));
    string_from_chars(&v)
}

/// The places an install is looked for, in order (see [`is_install_root`]).
fn install_roots(program_dirs: &Vec<String>, drives: &Vec<char>) -> (r: Vec<String>)
    ensures
        r.len() == program_dirs.len() + 2 * drives.len(),
        forall|k: int|
            0 <= k < r.len() ==> is_install_root(
                #[trigger] r@[k]@,
                texts(program_dirs@),
                drives@,
                k,
            ),
{
    proof {
        lemma_names_are_plain();
    }
    let ghost pd = texts(program_dirs@);
    let mut roots: Vec<String> = Vec::new();
    let mut k: usize = 0;
    while k < program_dirs.len()
        invariant
            k <= program_dirs.len(),
            pd == texts(program_dirs@),
            is_plain_component(WOW_FOLDER@),
            roots.len() == k,
            forall|t: int| 0 <= t < roots.len() ==> is_install_root(#[trigger] roots@[t]@, pd, drives@, t),
        decreases program_dirs.len() - k,
    {
        let root = path_join(program_dirs[k].as_str(), WOW_FOLDER);
        assert(pd[k as int] == program_dirs@[k as int]@);
        roots.push(root);
        assert(is_install_root(roots@[k as int]@, pd, drives@, k as int));
        k += 1;
    }
    let p = program_dirs.len();
    let mut j: usize = 0;
    while j < drives.len()
        invariant
            j <= drives.len(),
            p == program_dirs.len(),
            pd == texts(program_dirs@),
            pd.len() == p,
            is_plain_component(WOW_FOLDER@),
            is_plain_component("Games"@),
            roots.len() == p + 2 * j,
            forall|t: int| 0 <= t < roots.len() ==> is_install_root(#[trigger] roots@[t]@, pd, drives@, t),
        decreases drives.len() - j,
    {
        let d = drive_root_text(drives[j]);
        let direct = path_join(d.as_str(), WOW_FOLDER);
        let games = path_join(d.as_str(), "Games");
        let nested = path_join(games.as_str(), WOW_FOLDER);
        let ghost t0: int = p + 2 * j;
        assert((t0 - p) % 2 == 0 && (t0 - p) / 2 == j);
        assert((t0 + 1 - p) % 2 == 1 && (t0 + 1 - p) / 2 == j);
        roots.push(direct);
        assert(is_install_root(roots@[t0]@, pd, drives@, t0));
        roots.push(nested);
        assert(path_joined(games@, drive_root(drives@[j as int]), "Games"@));
        assert(is_install_root(roots@[t0 + 1]@, pd, drives@, t0 + 1));
        j += 1;
    }
    roots
}

/// Where a WoW `Logs` directory is looked for, in the order to try them:
/// flavor by flavor (`_retail_`, `_classic_`, `_classic_era_`), and within a
/// flavor the install places in order (see [`is_install_root`]): first
/// `World of Warcraft` in each of `program_dirs`, then for each of
/// `present_drives` `d:\World of Warcraft` and `d:\Games\World of Warcraft`.
/// Each candidate is `<root>/<flavor>/Logs`.
pub fn log_dir_candidates(program_dirs: &Vec<String>, present_drives: &Vec<char>) -> (r: Vec<String>)
    ensures
        ({
            let n = program_dirs.len() + 2 * present_drives.len();
            &&& r.len() == 3 * n
            &&& forall|i: int|
                0 <= i < r.len() ==> is_logs_candidate(
                    #[trigger] r@[i]@,
                    texts(program_dirs@),
                    present_drives@,
                    i % n,
                    flavor_name(i / n),
                )
        }),
{
    proof {
        lemma_names_are_plain();
    }
    let roots = install_roots(program_dirs, present_drives);
    let ghost pd = texts(program_dirs@);
    let n = roots.len();
    let mut r: Vec<String> = Vec::new();
    let mut f: usize = 0;
    while f < 3
        invariant
            f <= 3,
            n == roots.len() == program_dirs.len() + 2 * present_drives.len(),
            pd == texts(program_dirs@),
            is_plain_component("Logs"@),
            is_plain_component(flavor_name(0)),
            is_plain_component(flavor_name(1)),
            is_plain_component(flavor_name(2)),
            forall|k: int|
                0 <= k < roots.len() ==> is_install_root(#[trigger] roots@[k]@, pd, present_drives@, k),
            r.len() == f * n,
            forall|i: int|
                0 <= i < r.len() ==> is_logs_candidate(
                    #[trigger] r@[i]@,
                    pd,
                    present_drives@,
                    i % (n as int),
                    flavor_name(i / (n as int)),
                ),
        decreases 3 - f,
    {
        let flavor: &str = if f == 0 {
            "_retail_"
        } else if f == 1 {
            "_classic_"
        } else {
            "_classic_era_"
        };
        assert(flavor@ == flavor_name(f as int));
        let mut k: usize = 0;
        while k < n
            invariant
                f < 3,
                k <= n,
                n == roots.len(),
                flavor@ == flavor_name(f as int),
                is_plain_component("Logs"@),
                is_plain_component(flavor@),
                forall|t: int|
                    0 <= t < roots.len() ==> is_install_root(#[trigger] roots@[t]@, pd, present_drives@, t),
                r.len() == f * n + k,
                forall|i: int|
                    0 <= i < r.len() ==> is_logs_candidate(
                        #[trigger] r@[i]@,
                        pd,
                        present_drives@,
                        i % (n as int),
                        flavor_name(i / (n as int)),
                    ),
            decreases n - k,
        {
            let fl = path_join(roots[k].as_str(), flavor);
            let dir = path_join(fl.as_str(), "Logs");
            let ghost i: int = f * n + k;
            proof {
                vstd::arithmetic::div_mod::lemma_fundamental_div_mod_converse(
                    i,
                    n as int,
                    f as int,
                    k as int,
                );
                assert(is_install_root(roots@[k as int]@, pd, present_drives@, k as int));
                assert(path_joined(fl@, roots@[k as int]@, flavor@));
                assert(is_logs_dir_of(dir@, roots@[k as int]@, flavor@));
            }
            r.push(dir);
            assert(is_logs_candidate(r@[i]@, pd, present_drives@, i % (n as int), flavor_name(i / (n as int))));
            k += 1;
        }
        assert((f + 1) * n == f * n + n) by (nonlinear_arith);
        f += 1;
    }
    r
}

} // verus!
