//! The recording controller: turns combat-log events into recordings.
//!
//! The controller owns the capture backend and decides; its caller does the
//! I/O. For each event, [`Controller::handle`] says what the event asks for.
//! A run to begin gets its file names from [`Controller::plan_start`]; once
//! the caller has created the directory, [`Controller::begin`] starts the
//! capture and, if it starts, remembers the run. A run to end is closed by
//! [`Controller::finish`], which stops the capture and hands back the metadata
//! sidecar to write next to the video. A run is being recorded exactly while
//! the backend captures.

use vstd::prelude::*;

use crate::combatlog::{ChallengeEnd, ChallengeStart, EndView, LogEvent, StartView};
use crate::config::Config;
use crate::paths::{
    is_plain_component, law_sidecar_beside_video, path_join, path_joined, sidecar_of, sidecar_path,
};
use crate::recorder::{same_kind, start_outcome, stop_outcome, Backend, Error, Recorder};
use crate::text::{
    concat_chars, i64_decimal, int_decimal, is_whitespace, is_ws, join_with, lemma_join_extend_last,
    law_decimal_round_trip, lemma_join_push, lemma_nat_decimal_digits, spec_parse_i64,
    nat_decimal, str_chars, string_from_chars,
};

verus! {

/// Written next to each video so that other tools can align a Warcraft Logs
/// report with the footage later.
#[derive(Debug)]
pub struct RecordingMetadata {
    pub video_file: String,
    pub content_type: String,
    pub zone: String,
    pub keystone_level: Option<i64>,
    pub instance_id: Option<i64>,
    pub challenge_id: Option<i64>,
    pub affixes: Vec<i64>,
    pub success: Option<bool>,
    pub duration_ms: Option<i64>,
    /// Raw combat-log timestamps at start/end — the sync anchor.
    pub start_log_timestamp: String,
    pub end_log_timestamp: Option<String>,
    /// Wall-clock ISO-8601 when capture started/stopped.
    pub started_at: String,
    pub ended_at: Option<String>,
}

/// What a [`RecordingMetadata`] holds, as mathematical values.
pub struct MetadataView {
    pub video_file: Seq<char>,
    pub content_type: Seq<char>,
    pub zone: Seq<char>,
    pub keystone_level: Option<i64>,
    pub instance_id: Option<i64>,
    pub challenge_id: Option<i64>,
    pub affixes: Seq<i64>,
    pub success: Option<bool>,
    pub duration_ms: Option<i64>,
    pub start_log_timestamp: Seq<char>,
    pub end_log_timestamp: Option<Seq<char>>,
    pub started_at: Seq<char>,
    pub ended_at: Option<Seq<char>>,
}

pub open spec fn opt_string_view(s: Option<String>) -> Option<Seq<char>> {
    match s {
        Some(x) => Some(x@),
        None => None,
    }
}

impl View for RecordingMetadata {
    type V = MetadataView;

    open spec fn view(&self) -> MetadataView {
        MetadataView {
            video_file: self.video_file@,
            content_type: self.content_type@,
            zone: self.zone@,
            keystone_level: self.keystone_level,
            instance_id: self.instance_id,
            challenge_id: self.challenge_id,
            affixes: self.affixes@,
            success: self.success,
            duration_ms: self.duration_ms,
            start_log_timestamp: self.start_log_timestamp@,
            end_log_timestamp: opt_string_view(self.end_log_timestamp),
            started_at: self.started_at@,
            ended_at: opt_string_view(self.ended_at),
        }
    }
}

// ---------------------------------------------------------------------------
// File names
// ---------------------------------------------------------------------------

/// Characters that Windows file names cannot hold (and `,`).
pub open spec fn is_forbidden(c: char) -> bool {
    ||| c == '<'
    ||| c == '>'
    ||| c == ':'
    ||| c == '"'
    ||| c == '/'
    ||| c == '\\'
    ||| c == '|'
    ||| c == '?'
    ||| c == '*'
    ||| c == ','
}

/// `c`, or a space in place of a forbidden character.
pub open spec fn blank_forbidden(c: char) -> char {
    if is_forbidden(c) {
        ' '
    } else {
        c
    }
}

/// The maximal runs of non-whitespace characters of `s`, in order
/// (`str::split_whitespace`).
pub open spec fn words(s: Seq<char>) -> Seq<Seq<char>>
    decreases s.len(),
{
    if s.len() == 0 {
        seq![]
    } else {
        let prev = words(s.drop_last());
        let c = s.last();
        if is_ws(c) {
            prev
        } else if s.len() >= 2 && !is_ws(s[s.len() - 2]) {
            prev.update(prev.len() - 1, prev.last().push(c))
        } else {
            prev.push(seq![c])
        }
    }
}

/// A string made safe for a Windows file name: forbidden characters become
/// spaces, and the words that remain are joined with `-`.
pub open spec fn spec_sanitize(s: Seq<char>) -> Seq<char> {
    join_with(words(s.map_values(|c: char| blank_forbidden(c))), '-')
}

proof fn lemma_words_nonempty(s: Seq<char>)
    requires
        s.len() > 0,
        !is_ws(s.last()),
    ensures
        words(s).len() > 0,
    decreases s.len(),
{
    if s.len() >= 2 && !is_ws(s[s.len() - 2]) {
        assert(s.drop_last().last() == s[s.len() - 2]);
        lemma_words_nonempty(s.drop_last());
    }
}

/// Whether a zone character survives into a file name: every character but
/// `< > : " / \ | ? * ,` and whitespace.
pub open spec fn kept_in_file_name(c: char) -> bool {
    &&& c != '<' && c != '>' && c != ':' && c != '"' && c != '/'
    &&& c != '\\' && c != '|' && c != '?' && c != '*' && c != ','
    &&& !is_ws(c)
}

/// Any character but `-`.
pub open spec fn not_dash() -> spec_fn(char) -> bool {
    |c: char| c != '-'
}

/// Any character but `-` and whitespace.
pub open spec fn word_char() -> spec_fn(char) -> bool {
    |c: char| c != '-' && !is_ws(c)
}

/// A character kept in a file name, other than `-`.
pub open spec fn kept_non_dash() -> spec_fn(char) -> bool {
    |c: char| c != '-' && kept_in_file_name(c)
}

proof fn lemma_filter_push(x: Seq<char>, c: char, p: spec_fn(char) -> bool)
    ensures
        x.push(c).filter(p) == (if p(c) {
            x.filter(p).push(c)
        } else {
            x.filter(p)
        }),
{
    reveal(Seq::filter);
    assert(x.push(c).drop_last() =~= x);
}

proof fn lemma_joined_words_filter(t: Seq<char>)
    ensures
        join_with(words(t), '-').filter(not_dash()) == t.filter(word_char()),
    decreases t.len(),
{
    reveal(Seq::filter);
    if t.len() == 0 {
        assert(words(t) =~= Seq::<Seq<char>>::empty());
        assert(join_with(words(t), '-') =~= Seq::<char>::empty());
    } else {
        let prev = t.drop_last();
        let c = t.last();
        lemma_joined_words_filter(prev);
        assert(prev.push(c) =~= t);
        lemma_filter_push(prev, c, word_char());
        let wp = words(prev);
        let jp = join_with(wp, '-');
        if is_ws(c) {
        } else if t.len() >= 2 && !is_ws(t[t.len() - 2]) {
            assert(prev.last() == t[t.len() - 2]);
            lemma_words_nonempty(prev);
            lemma_join_extend_last(wp, c, '-');
            lemma_filter_push(jp, c, not_dash());
        } else {
            lemma_join_push(wp, c, '-');
            if wp.len() == 0 {
                assert(seq![c] =~= Seq::<char>::empty().push(c));
                lemma_filter_push(Seq::<char>::empty(), c, not_dash());
                assert(Seq::<char>::empty().filter(not_dash()) =~= Seq::<char>::empty());
                assert(jp =~= Seq::<char>::empty());
            } else {
                lemma_filter_push(jp, '-', not_dash());
                lemma_filter_push(jp.push('-'), c, not_dash());
            }
        }
    }
}

proof fn lemma_blanked_filter(s: Seq<char>)
    ensures
        s.map_values(|c: char| blank_forbidden(c)).filter(word_char()) == s.filter(kept_non_dash()),
    decreases s.len(),
{
    reveal(Seq::filter);
    if s.len() > 0 {
        let prev = s.drop_last();
        let c = s.last();
        lemma_blanked_filter(prev);
        let m = s.map_values(|c: char| blank_forbidden(c));
        let mp = prev.map_values(|c: char| blank_forbidden(c));
        assert(m =~= mp.push(blank_forbidden(c)));
        assert(s =~= prev.push(c));
        lemma_filter_push(mp, blank_forbidden(c), word_char());
        lemma_filter_push(prev, c, kept_non_dash());
        assert(is_ws(' ')) by {
            assert((' ' as u32) == 0x20);
        }
    }
}

/// Sanitizing drops or blanks only `< > : " / \ | ? * ,` and whitespace:
/// every other character of the text, non-ASCII letters included, is in the
/// result in order, and what the result adds is only `-` between words.
pub proof fn law_sanitize_keeps_other_chars(s: Seq<char>)
    ensures
        spec_sanitize(s).filter(not_dash()) == s.filter(kept_non_dash()),
{
    lemma_joined_words_filter(s.map_values(|c: char| blank_forbidden(c)));
    lemma_blanked_filter(s);
}

proof fn lemma_words_of_one_word(s: Seq<char>)
    requires
        s.len() > 0,
        forall|i: int| 0 <= i < s.len() ==> !is_ws(#[trigger] s[i]),
    ensures
        words(s) == seq![s],
    decreases s.len(),
{
    let prev = s.drop_last();
    if s.len() == 1 {
        assert(words(prev) =~= Seq::<Seq<char>>::empty());
        assert(seq![s.last()] =~= s);
    } else {
        lemma_words_of_one_word(prev);
        assert(!is_ws(s[s.len() - 2]));
        assert(!is_ws(s.last()));
        assert(prev.push(s.last()) =~= s);
    }
}

/// A text already fit for a file name — not empty, and holding none of
/// `< > : " / \ | ? * ,` nor whitespace — sanitizes to itself.
pub proof fn law_sanitize_fixes_file_names(s: Seq<char>)
    requires
        s.len() > 0,
        forall|i: int| 0 <= i < s.len() ==> kept_in_file_name(#[trigger] s[i]),
    ensures
        spec_sanitize(s) == s,
{
    let m = s.map_values(|c: char| blank_forbidden(c));
    assert(m =~= s);
    lemma_words_of_one_word(s);
}

proof fn lemma_words_concat(x: Seq<char>, y: Seq<char>)
    ensures
        words(x + seq![' '] + y) == words(x) + words(y),
    decreases y.len(),
{
    assert(is_ws(' ')) by {
        assert((' ' as u32) == 0x20);
    }
    let s = x + seq![' '] + y;
    if y.len() == 0 {
        assert(s.drop_last() =~= x);
        assert(s.last() == ' ');
        assert(words(y) =~= Seq::<Seq<char>>::empty());
        assert(words(x) + words(y) =~= words(x));
    } else {
        let u = y.drop_last();
        let c = y.last();
        lemma_words_concat(x, u);
        assert(s.drop_last() =~= x + seq![' '] + u);
        assert(s.last() == c);
        let wx = words(x);
        let wu = words(u);
        if is_ws(c) {
        } else if y.len() >= 2 && !is_ws(y[y.len() - 2]) {
            assert(s[s.len() - 2] == y[y.len() - 2]);
            assert(u.last() == y[y.len() - 2]);
            lemma_words_nonempty(u);
            assert((wx + wu).update((wx + wu).len() - 1, (wx + wu).last().push(c)) =~= wx
                + wu.update(wu.len() - 1, wu.last().push(c)));
        } else {
            if y.len() >= 2 {
                assert(s[s.len() - 2] == y[y.len() - 2]);
            } else {
                assert(s[s.len() - 2] == ' ');
                assert(u =~= Seq::<char>::empty());
                assert(words(u) =~= Seq::<Seq<char>>::empty());
            }
            assert((wx + wu).push(seq![c]) =~= wx + wu.push(seq![c]));
        }
    }
}

proof fn lemma_join_concat(a: Seq<Seq<char>>, b: Seq<Seq<char>>, sep: char)
    requires
        a.len() > 0,
        b.len() > 0,
    ensures
        join_with(a + b, sep) == join_with(a, sep) + seq![sep] + join_with(b, sep),
    decreases b.len(),
{
    if b.len() == 1 {
        assert((a + b).drop_last() =~= a);
        assert((a + b).last() == b[0]);
        assert(join_with(a + b, sep) =~= join_with(a, sep) + seq![sep] + join_with(b, sep));
    } else {
        let u = b.drop_last();
        lemma_join_concat(a, u, sep);
        assert((a + b).drop_last() =~= a + u);
        assert((a + b).last() == b.last());
        assert(join_with(a + b, sep) =~= join_with(a, sep) + seq![sep] + join_with(b, sep));
    }
}

/// Two texts set apart by a space sanitize to their two sanitized forms
/// joined with `-`, when neither sanitizes to nothing.
pub proof fn law_sanitize_joins_words(a: Seq<char>, b: Seq<char>)
    requires
        spec_sanitize(a).len() > 0,
        spec_sanitize(b).len() > 0,
    ensures
        spec_sanitize(a + seq![' '] + b) == spec_sanitize(a) + seq!['-'] + spec_sanitize(b),
{
    let ma = a.map_values(|c: char| blank_forbidden(c));
    let mb = b.map_values(|c: char| blank_forbidden(c));
    assert(blank_forbidden(' ') == ' ');
    assert((a + seq![' '] + b).map_values(|c: char| blank_forbidden(c)) =~= ma + seq![' '] + mb);
    lemma_words_concat(ma, mb);
    assert(words(ma).len() > 0) by {
        if words(ma).len() == 0 {
            assert(join_with(words(ma), '-') =~= Seq::<char>::empty());
        }
    }
    assert(words(mb).len() > 0) by {
        if words(mb).len() == 0 {
            assert(join_with(words(mb), '-') =~= Seq::<char>::empty());
        }
    }
    lemma_join_concat(words(ma), words(mb), '-');
}

/// Each of `< > : " / \ | ? * ,` counts as a space: it separates words and
/// leaves no trace of its own.
pub proof fn law_sanitize_blanks_forbidden(a: Seq<char>, c: char, b: Seq<char>)
    requires
        c == '<' || c == '>' || c == ':' || c == '"' || c == '/' || c == '\\' || c == '|' || c
            == '?' || c == '*' || c == ',',
    ensures
        spec_sanitize(a + seq![c] + b) == spec_sanitize(a + seq![' '] + b),
{
    assert((a + seq![c] + b).map_values(|x: char| blank_forbidden(x)) =~= (a + seq![' '] + b).map_values(
        |x: char| blank_forbidden(x),
    ));
}

/// Makes a string safe for a Windows file name (see [`spec_sanitize`]). The
/// result holds no forbidden character and no whitespace.
pub fn sanitize(s: &str) -> (r: String)
    ensures
        r@ == spec_sanitize(s@),
        forall|k: int| 0 <= k < r@.len() ==> !is_forbidden(#[trigger] r@[k]) && !is_ws(r@[k]),
{
    let v = str_chars(s);
    let ghost m = v@.map_values(|c: char| blank_forbidden(c));
    let mut out: Vec<char> = Vec::new();
    let mut has_word = false;
    let mut in_word = false;
    let n = v.len();
    let mut i: usize = 0;
    while i < n
        invariant
            i <= n == v.len(),
            m == v@.map_values(|c: char| blank_forbidden(c)),
            out@ == join_with(words(m.take(i as int)), '-'),
            has_word == (words(m.take(i as int)).len() > 0),
            in_word == (i > 0 && !is_ws(m[i - 1])),
            forall|k: int| 0 <= k < out@.len() ==> !is_forbidden(#[trigger] out@[k]) && !is_ws(out@[k]),
        decreases n - i,
    {
        let orig = v[i];
        let c = if orig == '<' || orig == '>' || orig == ':' || orig == '"' || orig == '/' || orig
            == '\\' || orig == '|' || orig == '?' || orig == '*' || orig == ',' {
            ' '
        } else {
            orig
        };
        let ghost pre = m.take(i as int);
        let ghost post = m.take(i + 1);
        assert(post.drop_last() =~= pre);
        assert(post.last() == c);
        assert(c == ' ' ==> is_ws(c));
        if is_whitespace(c) {
            in_word = false;
        } else {
            if in_word {
                assert(post[post.len() - 2] == m[i - 1]);
                proof {
                    lemma_words_nonempty(pre);
                    lemma_join_extend_last(words(pre), c, '-');
                }
                out.push(c);
            } else {
                proof {
                    if i > 0 {
                        assert(post[post.len() - 2] == m[i - 1]);
                    }
                    lemma_join_push(words(pre), c, '-');
                }
                if has_word {
                    out.push('-');
                }
                out.push(c);
                has_word = true;
                in_word = true;
            }
        }
        i += 1;
    }
    assert(m.take(n as int) =~= m);
    string_from_chars(&out)
}

/// A character that separates path components or names a drive.
pub open spec fn is_path_char(c: char) -> bool {
    c == '/' || c == '\\' || c == ':'
}

/// Whether `s` holds no character that separates path components or names a
/// drive.
pub open spec fn no_path_chars(s: Seq<char>) -> bool {
    forall|i: int| 0 <= i < s.len() ==> !is_path_char(#[trigger] s[i])
}

proof fn lemma_int_decimal_plain(n: int)
    ensures
        no_path_chars(int_decimal(n)),
{
    if n < 0 {
        lemma_nat_decimal_digits((-n) as nat);
        let d = nat_decimal((-n) as nat);
        assert forall|i: int| 0 <= i < int_decimal(n).len() implies !is_path_char(
            #[trigger] int_decimal(n)[i],
        ) by {
            if i > 0 {
                assert(int_decimal(n)[i] == d[i - 1]);
            }
        }
    } else {
        lemma_nat_decimal_digits(n as nat);
    }
}

/// The file stem of a recording: the start time, the sanitized zone and the
/// keystone level (0 when unknown), as `<time>_<zone>_+<level>`.
pub open spec fn spec_stem(stamp: Seq<char>, zone: Seq<char>, level: Option<i64>) -> Seq<char> {
    stamp + "_"@ + spec_sanitize(zone) + "_+"@ + int_decimal(
        match level {
            Some(l) => l as int,
            None => 0,
        },
    )
}

// ---------------------------------------------------------------------------
// The controller
// ---------------------------------------------------------------------------

/// The run being recorded.
struct Active {
    start: ChallengeStart,
    started_at: String,
    video_file: String,
    stem: String,
    output_directory: String,
    video_path: String,
}

/// What the controller remembers of the run being recorded.
pub struct RunView {
    pub start: StartView,
    pub started_at: Seq<char>,
    pub video_file: Seq<char>,
    pub stem: Seq<char>,
    /// The directory the run's video went to; its sidecar goes there too.
    pub output_directory: Seq<char>,
    /// The path the capture writes to: `video_file` joined onto
    /// `output_directory`.
    pub video_path: Seq<char>,
}

/// Owns the capture backend, the settings and the current run, if any. Not
/// internally synchronized; the app wraps it in a mutex.
pub struct Controller {
    recorder: Backend,
    config: Config,
    active: Option<Active>,
    /// How many captures the backend has started for this controller.
    started: Ghost<nat>,
    /// How many times this controller has stopped the backend.
    stopped: Ghost<nat>,
}

/// What an event asks of the caller.
pub enum Step {
    /// `CHALLENGE_MODE_START` while already recording: ignore it.
    StartIgnored,
    /// Begin a recording of this run.
    Begin(ChallengeStart),
    /// `CHALLENGE_MODE_END` with no active recording: ignore it.
    EndIgnored,
    /// Wait the given number of seconds (so the loot and scoreboard are
    /// captured), then finish the run.
    Finish(ChallengeEnd, u64),
}

/// Where a new recording goes: `<stem>.mp4` in `output_directory`.
pub struct StartPlan {
    /// The directory to create and write into.
    pub output_directory: String,
    pub stem: String,
}

impl StartPlan {
    /// The video's file name, `<stem>.mp4`.
    pub fn video_file(&self) -> (r: String)
        ensures
            r@ == self.stem@ + ".mp4"@,
    {
        string_from_chars(&concat_chars(&str_chars(self.stem.as_str()), &str_chars(".mp4")))
    }
}

/// A finished run: what stopping the capture answered, and the sidecar to
/// write, and where.
pub struct Finished {
    pub stopped: Result<(), Error>,
    pub metadata: RecordingMetadata,
    /// Where the sidecar goes: the video's path ending in `.json`.
    pub metadata_path: String,
}

/// The metadata of a finished run.
pub open spec fn spec_metadata(run: RunView, end: EndView, ended_at: Seq<char>) -> MetadataView {
    MetadataView {
        video_file: run.video_file,
        content_type: "mythicplus"@,
        zone: run.start.zone,
        keystone_level: match run.start.keystone_level {
            Some(l) => Some(l),
            None => end.keystone_level,
        },
        instance_id: match run.start.instance_id {
            Some(i) => Some(i),
            None => end.instance_id,
        },
        challenge_id: run.start.challenge_id,
        affixes: run.start.affixes,
        success: Some(end.success),
        duration_ms: end.duration_ms,
        start_log_timestamp: run.start.log_timestamp,
        end_log_timestamp: Some(end.log_timestamp),
        started_at: run.started_at,
        ended_at: Some(ended_at),
    }
}

impl Controller {
    /// The run being recorded, if any.
    pub closed spec fn run(&self) -> Option<RunView> {
        match self.active {
            Some(a) => Some(
                RunView {
                    start: a.start@,
                    started_at: a.started_at@,
                    video_file: a.video_file@,
                    stem: a.stem@,
                    output_directory: a.output_directory@,
                    video_path: a.video_path@,
                },
            ),
            None => None,
        }
    }

    /// The settings in force.
    pub closed spec fn settings(&self) -> Config {
        self.config
    }

    /// The capture backend.
    pub closed spec fn backend(&self) -> Backend {
        self.recorder
    }

    /// A run is being recorded exactly while the backend captures.
    pub open spec fn capture_matches_run(&self) -> bool {
        self.backend().is_capturing() <==> self.run() is Some
    }

    /// How many captures the backend has started for this controller.
    pub closed spec fn captures_started(&self) -> nat {
        self.started@
    }

    /// How many times this controller has stopped the backend.
    pub closed spec fn captures_stopped(&self) -> nat {
        self.stopped@
    }

    /// What every controller keeps: each capture started has been stopped
    /// once, but for the one of the run being recorded; and that run's video
    /// is the file name `<stem>.mp4` joined onto its directory.
    pub open spec fn wf(&self) -> bool {
        &&& self.captures_started() == self.captures_stopped() + (if self.run() is Some {
            1nat
        } else {
            0nat
        })
        &&& self.run() matches Some(run) ==> {
            &&& run.video_file == run.stem + ".mp4"@
            &&& is_plain_component(run.video_file)
            &&& path_joined(run.video_path, run.output_directory, run.video_file)
        }
    }

    /// A controller driving `recorder` with settings `config`, recording
    /// nothing and having started nothing.
    pub fn new(recorder: Backend, config: Config) -> (c: Controller)
        ensures
            c.run() is None,
            c.settings() == config,
            c.backend() == recorder,
            c.captures_started() == 0,
            c.captures_stopped() == 0,
            c.wf(),
            !recorder.is_capturing() ==> c.capture_matches_run(),
    {
        Controller { recorder, config, active: None, started: Ghost(0), stopped: Ghost(0) }
    }

    /// Replaces the settings; a run in progress goes on, and the backend is
    /// not touched.
    pub fn set_config(&mut self, config: Config)
        ensures
            final(self).settings() == config,
            final(self).run() == old(self).run(),
            final(self).backend() == old(self).backend(),
            final(self).captures_started() == old(self).captures_started(),
            final(self).captures_stopped() == old(self).captures_stopped(),
            old(self).wf() ==> final(self).wf(),
    {
        self.config = config;
    }

    /// The capture backend.
    pub fn recorder(&self) -> (b: &Backend)
        ensures
            *b == self.backend(),
    {
        &self.recorder
    }

    /// The path the running capture writes to, if a run is being recorded.
    pub fn video_path(&self) -> (r: Option<String>)
        ensures
            match r {
                Some(p) => self.run() matches Some(run) && p@ == run.video_path,
                None => self.run() is None,
            },
    {
        match &self.active {
            Some(a) => Some(a.video_path.clone()),
            None => None,
        }
    }

    /// The settings in force.
    pub fn config(&self) -> (c: &Config)
        ensures
            *c == self.settings(),
    {
        &self.config
    }

    /// The capture backend's short name.
    pub fn backend_name(&self) -> (r: &'static str)
        ensures
            r@ == self.backend().name_of(),
    {
        self.recorder.backend_name()
    }

    /// Whether a run is being recorded.
    pub fn is_recording(&self) -> (b: bool)
        ensures
            b == self.run() is Some,
    {
        self.active.is_some()
    }

    /// What a log event asks for: a start begins a recording unless one is
    /// running; an end finishes the running one, if any, after the stop delay
    /// in force; the rest is ignored.
    pub fn handle(&self, event: LogEvent) -> (s: Step)
        ensures
            match event {
                LogEvent::ChallengeStart(st) => if self.run() is Some {
                    s is StartIgnored
                } else {
                    s == Step::Begin(st)
                },
                LogEvent::ChallengeEnd(e) => if self.run() is Some {
                    s == Step::Finish(e, self.settings().stop_delay_secs)
                } else {
                    s is EndIgnored
                },
            },
    {
        match event {
            LogEvent::ChallengeStart(st) => {
                if self.active.is_some() {
                    Step::StartIgnored
                } else {
                    Step::Begin(st)
                }
            },
            LogEvent::ChallengeEnd(e) => {
                if self.active.is_some() {
                    Step::Finish(e, self.config.stop_delay_secs)
                } else {
                    Step::EndIgnored
                }
            },
        }
    }

    /// Where the recording of `start`, begun at the time written `stamp`,
    /// goes: `<stem>.mp4` in the output directory in force (see
    /// [`spec_stem`]).
    pub fn plan_start(&self, start: &ChallengeStart, stamp: &str) -> (p: StartPlan)
        ensures
            p.stem@ == spec_stem(stamp@, start.zone@, start.keystone_level),
            p.output_directory@ == self.settings().output_directory@,
            no_path_chars(stamp@) ==> is_plain_component(p.stem@ + ".mp4"@),
    {
        let level: i64 = match start.keystone_level {
            Some(l) => l,
            None => 0,
        };
        let zone = sanitize(start.zone.as_str());
        let a = concat_chars(&str_chars(stamp), &str_chars("_"));
        let b = concat_chars(&a, &str_chars(zone.as_str()));
        let c = concat_chars(&b, &str_chars("_+"));
        let d = concat_chars(&c, &i64_decimal(level));
        let stem = string_from_chars(&d);
        proof {
            let lvl: int = level as int;
            lemma_int_decimal_plain(lvl);
            reveal_strlit("_");
            reveal_strlit("_+");
            reveal_strlit(".mp4");
            let full = stem@ + ".mp4"@;
            if no_path_chars(stamp@) {
                assert(no_path_chars(zone@));
                assert(no_path_chars(full)) by {
                    assert forall|i: int| 0 <= i < full.len() implies !is_path_char(
                        #[trigger] full[i],
                    ) by {
                        let z = stamp@.len() + 1;
                        let pl = z + zone@.len() + 2;
                        let dl = pl + int_decimal(lvl).len();
                        if i < stamp@.len() {
                            assert(full[i] == stamp@[i]);
                        } else if z <= i < z + zone@.len() {
                            assert(full[i] == zone@[i - z]);
                        } else if pl <= i < dl {
                            assert(full[i] == int_decimal(lvl)[i - pl]);
                        }
                    }
                }
                assert(full.len() > 2);
                assert(full != seq!['.']);
                assert(full != seq!['.', '.']);
            }
        }
        StartPlan { output_directory: self.config.output_dir(), stem }
    }

    /// Starts capturing `start`'s run, begun at `started_at`, to the plan's
    /// video file `<stem>.mp4` joined onto the plan's directory. When the
    /// backend starts, it captures to that path and the run is being
    /// recorded; when it refuses, nothing changes.
    pub fn begin(&mut self, start: ChallengeStart, started_at: String, plan: StartPlan) -> (r: Result<(), Error>)
        requires
            old(self).run() is None,
            is_plain_component(plan.stem@ + ".mp4"@),
        ensures
            final(self).settings() == old(self).settings(),
            start_outcome(old(self).backend(), r),
            same_kind(old(self).backend(), final(self).backend()),
            final(self).backend().is_capturing() == (old(self).backend().is_capturing() || r is Ok),
            final(self).captures_stopped() == old(self).captures_stopped(),
            final(self).captures_started() == old(self).captures_started() + (if r is Ok {
                1nat
            } else {
                0nat
            }),
            r is Ok ==> (final(self).run() matches Some(run) && {
                &&& run.start == start@
                &&& run.started_at == started_at@
                &&& run.stem == plan.stem@
                &&& run.video_file == plan.stem@ + ".mp4"@
                &&& run.output_directory == plan.output_directory@
                &&& path_joined(run.video_path, plan.output_directory@, run.video_file)
                &&& final(self).backend().capture_target() == Some(run.video_path)
            }),
            r is Err ==> final(self).run() is None && final(self).backend() == old(self).backend(),
            old(self).capture_matches_run() ==> final(self).capture_matches_run(),
            old(self).wf() ==> final(self).wf(),
    {
        let video_file = plan.video_file();
        let video_path = path_join(plan.output_directory.as_str(), video_file.as_str());
        let r = self.recorder.start(video_path.as_str(), &self.config);
        match r {
            Ok(()) => {
                self.active = Some(
                    Active {
                        start,
                        started_at,
                        video_file,
                        stem: plan.stem,
                        output_directory: plan.output_directory,
                        video_path,
                    },
                );
                self.started = Ghost(self.started@ + 1);
                Ok(())
            },
            Err(e) => Err(e),
        }
    }

    /// Closes the running run with `end`: stops the capture, reads the time
    /// from `clock`, and hands back the run's metadata (see
    /// [`spec_metadata`]), to go next to the run's video under the video's
    /// stem (see [`sidecar_of`]). With no run, nothing happens and the
    /// backend is not touched.
    pub fn finish<F: Fn() -> String>(&mut self, end: ChallengeEnd, clock: F) -> (r: Option<Finished>)
        requires
            call_requires(clock, ()),
        ensures
            final(self).settings() == old(self).settings(),
            final(self).run() is None,
            final(self).captures_started() == old(self).captures_started(),
            old(self).capture_matches_run() ==> final(self).capture_matches_run(),
            old(self).wf() ==> final(self).wf(),
            match old(self).run() {
                None => {
                    &&& r is None
                    &&& final(self).backend() == old(self).backend()
                    &&& final(self).captures_stopped() == old(self).captures_stopped()
                },
                Some(run) => r matches Some(f) && {
                    &&& stop_outcome(old(self).backend(), f.stopped)
                    &&& same_kind(old(self).backend(), final(self).backend())
                    &&& !final(self).backend().is_capturing()
                    &&& final(self).backend().capture_target() is None
                    &&& final(self).captures_stopped() == old(self).captures_stopped() + 1
                    &&& f.metadata.ended_at matches Some(t) && call_ensures(clock, (), t)
                        && f.metadata@ == spec_metadata(run, end@, t@)
                    &&& f.metadata_path@ == sidecar_of(run.video_path)
                    &&& old(self).wf() ==> path_joined(
                        f.metadata_path@,
                        run.output_directory,
                        run.stem + ".json"@,
                    )
                },
            },
    {
        let active = match self.active.take() {
            Some(a) => a,
            None => {
                return None;
            },
        };
        let stopped = self.recorder.stop();
        self.stopped = Ghost(self.stopped@ + 1);
        let ended_at = clock();
        let keystone_level = match active.start.keystone_level {
            Some(l) => Some(l),
            None => end.keystone_level,
        };
        let instance_id = match active.start.instance_id {
            Some(i) => Some(i),
            None => end.instance_id,
        };
        let metadata_path = sidecar_path(active.video_path.as_str());
        proof {
            if old(self).wf() {
                law_sidecar_beside_video(
                    active.video_path@,
                    active.output_directory@,
                    active.stem@,
                );
            }
        }
        let ChallengeStart { zone, challenge_id, affixes, log_timestamp, .. } = active.start;
        let metadata = RecordingMetadata {
            video_file: active.video_file,
            content_type: "mythicplus".to_owned(),
            zone,
            keystone_level,
            instance_id,
            challenge_id,
            affixes,
            success: Some(end.success),
            duration_ms: end.duration_ms,
            start_log_timestamp: log_timestamp,
            end_log_timestamp: Some(end.log_timestamp),
            started_at: active.started_at,
            ended_at: Some(ended_at),
        };
        Some(Finished { stopped, metadata, metadata_path })
    }
}

/// The sidecar of a run keeps what its start recorded — the zone, the
/// challenge, the affixes, the start timestamp, the start time, the video
/// file — and takes from the end what the start did not know: the keystone
/// level and instance when the start lacked them, and, for a timed run and a
/// depleted one alike, the outcome, the duration and the end timestamp.
pub proof fn law_metadata_keeps_start(run: RunView, end: EndView, ended_at: Seq<char>)
    ensures
        spec_metadata(run, end, ended_at).zone == run.start.zone,
        spec_metadata(run, end, ended_at).challenge_id == run.start.challenge_id,
        spec_metadata(run, end, ended_at).affixes == run.start.affixes,
        spec_metadata(run, end, ended_at).start_log_timestamp == run.start.log_timestamp,
        spec_metadata(run, end, ended_at).started_at == run.started_at,
        spec_metadata(run, end, ended_at).video_file == run.video_file,
        spec_metadata(run, end, ended_at).content_type == "mythicplus"@,
        run.start.keystone_level is Some ==> spec_metadata(run, end, ended_at).keystone_level
            == run.start.keystone_level,
        run.start.keystone_level is None ==> spec_metadata(run, end, ended_at).keystone_level
            == end.keystone_level,
        run.start.instance_id is Some ==> spec_metadata(run, end, ended_at).instance_id
            == run.start.instance_id,
        run.start.instance_id is None ==> spec_metadata(run, end, ended_at).instance_id
            == end.instance_id,
        spec_metadata(run, end, ended_at).success == Some(end.success),
        spec_metadata(run, end, ended_at).duration_ms == end.duration_ms,
        spec_metadata(run, end, ended_at).end_log_timestamp == Some(end.log_timestamp),
        spec_metadata(run, end, ended_at).ended_at == Some(ended_at),
{
}

/// Each capture the controller started has been stopped exactly once, but
/// the capture of the run being recorded: [`Controller::new`] starts with
/// neither, and [`Controller::begin`], [`Controller::finish`] and
/// [`Controller::set_config`] keep [`Controller::wf`], so starts exceed stops
/// by one while a run is recorded and equal them otherwise.
pub proof fn law_each_capture_stopped_once(c: Controller)
    requires
        c.wf(),
    ensures
        c.run() is Some ==> c.captures_started() == c.captures_stopped() + 1,
        c.run() is None ==> c.captures_started() == c.captures_stopped(),
{
}

/// A recording's stem reads, in order: the start time, `_`, the sanitized
/// zone, `_+`, and the keystone level in decimal, which reads back as the
/// level (0 when the start did not say).
pub proof fn law_stem_layout(stamp: Seq<char>, zone: Seq<char>, level: Option<i64>)
    ensures
        ({
            let st = spec_stem(stamp, zone, level);
            let z = spec_sanitize(zone);
            let k = stamp.len() as int + 1 + z.len() + 2;
            &&& st.len() > k
            &&& st.take(stamp.len() as int) == stamp
            &&& st[stamp.len() as int] == '_'
            &&& st.subrange(stamp.len() as int + 1, k - 2) == z
            &&& st[k - 2] == '_' && st[k - 1] == '+'
            &&& spec_parse_i64(st.skip(k)) == Some(
                match level {
                    Some(l) => l,
                    None => 0i64,
                },
            )
        }),
{
    reveal_strlit("_");
    reveal_strlit("_+");
    let lvl: i64 = match level {
        Some(l) => l,
        None => 0i64,
    };
    law_decimal_round_trip(lvl);
    let st = spec_stem(stamp, zone, level);
    let z = spec_sanitize(zone);
    let d = int_decimal(lvl as int);
    let k = stamp.len() as int + 1 + z.len() + 2;
    assert(st =~= stamp + seq!['_'] + z + seq!['_', '+'] + d);
    assert(st.take(stamp.len() as int) =~= stamp);
    assert(st.subrange(stamp.len() as int + 1, k - 2) =~= z);
    assert(st.skip(k) =~= d);
}

} // verus!
