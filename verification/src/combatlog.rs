//! Mythic+ event detection in WoW combat-log lines.
//!
//! With advanced combat logging on, a Mythic+ run brackets its events with
//! `CHALLENGE_MODE_START` and `CHALLENGE_MODE_END`. A line reads
//! `<timestamp>  <EVENT>,<args...>`, two spaces after the timestamp.

use vstd::prelude::*;

use crate::text::{
    chars_eq, copy_range, find_chars, find_first, find_from, is_ws, join_with, lead_len,
    lemma_find_from_bounds, trail_len,
    int_decimal, is_digit, law_decimal_round_trip, lemma_join_extend_last, lemma_trim_untouched,
    parse_i64_chars,
    spec_parse_i64, str_chars, string_from_chars, trim_chars, trim_end_chars, trim_end_of,
    trim_of, trim_start_chars, trim_start_of, trim_ws, CharClass,
};

verus! {

/// A `CHALLENGE_MODE_START` event.
#[derive(Debug, Clone)]
pub struct ChallengeStart {
    pub zone: String,
    pub instance_id: Option<i64>,
    pub challenge_id: Option<i64>,
    pub keystone_level: Option<i64>,
    pub affixes: Vec<i64>,
    /// Raw combat-log timestamp (e.g. `9/14 20:01:05.123`).
    pub log_timestamp: String,
}

/// A `CHALLENGE_MODE_END` event.
#[derive(Debug, Clone)]
pub struct ChallengeEnd {
    pub instance_id: Option<i64>,
    pub success: bool,
    pub keystone_level: Option<i64>,
    pub duration_ms: Option<i64>,
    pub log_timestamp: String,
}

/// A Mythic+ event of the combat log.
#[derive(Debug, Clone)]
pub enum LogEvent {
    ChallengeStart(ChallengeStart),
    ChallengeEnd(ChallengeEnd),
}

/// What a [`ChallengeStart`] holds, as mathematical values.
pub struct StartView {
    pub zone: Seq<char>,
    pub instance_id: Option<i64>,
    pub challenge_id: Option<i64>,
    pub keystone_level: Option<i64>,
    pub affixes: Seq<i64>,
    pub log_timestamp: Seq<char>,
}

/// What a [`ChallengeEnd`] holds, as mathematical values.
pub struct EndView {
    pub instance_id: Option<i64>,
    pub success: bool,
    pub keystone_level: Option<i64>,
    pub duration_ms: Option<i64>,
    pub log_timestamp: Seq<char>,
}

/// What a [`LogEvent`] holds, as mathematical values.
pub enum EventView {
    Start(StartView),
    End(EndView),
}

impl View for ChallengeStart {
    type V = StartView;

    open spec fn view(&self) -> StartView {
        StartView {
            zone: self.zone@,
            instance_id: self.instance_id,
            challenge_id: self.challenge_id,
            keystone_level: self.keystone_level,
            affixes: self.affixes@,
            log_timestamp: self.log_timestamp@,
        }
    }
}

impl View for ChallengeEnd {
    type V = EndView;

    open spec fn view(&self) -> EndView {
        EndView {
            instance_id: self.instance_id,
            success: self.success,
            keystone_level: self.keystone_level,
            duration_ms: self.duration_ms,
            log_timestamp: self.log_timestamp@,
        }
    }
}

impl View for LogEvent {
    type V = EventView;

    open spec fn view(&self) -> EventView {
        match self {
            LogEvent::ChallengeStart(s) => EventView::Start(s@),
            LogEvent::ChallengeEnd(e) => EventView::End(e@),
        }
    }
}

// ---------------------------------------------------------------------------
// Argument splitting
// ---------------------------------------------------------------------------

/// The state of the argument scanner after some prefix of the text.
pub struct ArgScan {
    /// Arguments already closed by a top-level comma.
    pub done: Seq<Seq<char>>,
    /// The argument being read.
    pub cur: Seq<char>,
    /// Nesting depth of `[`/`(` against `]`/`)` outside quotes.
    pub depth: int,
    pub in_quotes: bool,
}

/// One character of the argument scanner: a `"` toggles quoting and is
/// dropped; brackets outside quotes change the depth and are kept; a comma
/// outside quotes at depth 0 closes the argument; anything else is kept.
pub open spec fn scan_step(st: ArgScan, c: char) -> ArgScan {
    if c == '"' {
        ArgScan { done: st.done, cur: st.cur, depth: st.depth, in_quotes: !st.in_quotes }
    } else if (c == '[' || c == '(') && !st.in_quotes {
        ArgScan { done: st.done, cur: st.cur.push(c), depth: st.depth + 1, in_quotes: false }
    } else if (c == ']' || c == ')') && !st.in_quotes {
        ArgScan { done: st.done, cur: st.cur.push(c), depth: st.depth - 1, in_quotes: false }
    } else if c == ',' && !st.in_quotes && st.depth == 0 {
        ArgScan { done: st.done.push(st.cur), cur: seq![], depth: st.depth, in_quotes: false }
    } else {
        ArgScan { done: st.done, cur: st.cur.push(c), depth: st.depth, in_quotes: st.in_quotes }
    }
}

/// The scanner state after reading all of `s`.
pub open spec fn arg_scan(s: Seq<char>) -> ArgScan
    decreases s.len(),
{
    if s.len() == 0 {
        ArgScan { done: seq![], cur: seq![], depth: 0, in_quotes: false }
    } else {
        scan_step(arg_scan(s.drop_last()), s.last())
    }
}

/// The arguments of a combat-log argument list: split at commas outside
/// `"..."` quoting and outside `[...]`/`(...)` nesting, quotes removed.
pub open spec fn spec_split_args(s: Seq<char>) -> Seq<Seq<char>> {
    arg_scan(s).done.push(arg_scan(s).cur)
}

/// Splits the characters `v` of an argument list (see [`spec_split_args`]).
pub fn split_args_chars(v: &Vec<char>) -> (r: Vec<Vec<char>>)
    ensures
        r.len() == spec_split_args(v@).len(),
        forall|k: int| 0 <= k < r.len() ==> (#[trigger] r@[k])@ == spec_split_args(v@)[k],
{
    let mut out: Vec<Vec<char>> = Vec::new();
    let mut cur: Vec<char> = Vec::new();
    let mut depth: i128 = 0;
    let mut in_quotes = false;
    let n = v.len();
    let mut i: usize = 0;
    while i < n
        invariant
            i <= n == v.len(),
            out.len() == arg_scan(v@.take(i as int)).done.len(),
            forall|k: int|
                0 <= k < out.len() ==> (#[trigger] out@[k])@ == arg_scan(
                    v@.take(i as int),
                ).done[k],
            cur@ == arg_scan(v@.take(i as int)).cur,
            depth == arg_scan(v@.take(i as int)).depth,
            in_quotes == arg_scan(v@.take(i as int)).in_quotes,
            -(i as int) <= depth <= i as int,
        decreases n - i,
    {
        let c = v[i];
        let ghost prev = arg_scan(v@.take(i as int));
        assert(v@.take(i + 1).drop_last() =~= v@.take(i as int));
        assert(v@.take(i + 1).last() == c);
        if c == '"' {
            in_quotes = !in_quotes;
        } else if (c == '[' || c == '(') && !in_quotes {
            depth = depth + 1;
            cur.push(c);
        } else if (c == ']' || c == ')') && !in_quotes {
            depth = depth - 1;
            cur.push(c);
        } else if c == ',' && !in_quotes && depth == 0 {
            let closed = cur;
            out.push(closed);
            cur = Vec::new();
        } else {
            cur.push(c);
        }
        i += 1;
    }
    assert(v@.take(n as int) =~= v@);
    out.push(cur);
    out
}

/// Splits an argument list into its arguments, respecting `"..."` quoting
/// and `[...]`/`(...)` nesting (affix and info arrays); quotes are removed.
pub fn split_args(s: &str) -> (r: Vec<String>)
    ensures
        r.len() == spec_split_args(s@).len(),
        forall|k: int| 0 <= k < r.len() ==> (#[trigger] r@[k])@ == spec_split_args(s@)[k],
{
    let v = str_chars(s);
    let parts = split_args_chars(&v);
    let mut r: Vec<String> = Vec::new();
    let mut i: usize = 0;
    while i < parts.len()
        invariant
            i <= parts.len() == spec_split_args(s@).len(),
            v@ == s@,
            r.len() == i,
            forall|k: int|
                0 <= k < parts.len() ==> (#[trigger] parts@[k])@ == spec_split_args(s@)[k],
            forall|k: int| 0 <= k < i ==> (#[trigger] r@[k])@ == spec_split_args(s@)[k],
        decreases parts.len() - i,
    {
        let piece = string_from_chars(&parts[i]);
        r.push(piece);
        i += 1;
    }
    r
}

// ---------------------------------------------------------------------------
// Numbers
// ---------------------------------------------------------------------------

/// An integer argument: the text trimmed of whitespace, then of `"` quotes,
/// read as an `i64`.
pub open spec fn spec_parse_int(s: Seq<char>) -> Option<i64> {
    spec_parse_i64(trim_of(trim_ws(s), CharClass::Exactly('"')))
}

/// Integer argument of the characters `v` (see [`spec_parse_int`]).
pub fn parse_int_chars(v: &Vec<char>) -> (r: Option<i64>)
    ensures
        r == spec_parse_int(v@),
{
    let t = trim_chars(v, CharClass::Whitespace);
    let u = trim_chars(&t, CharClass::Exactly('"'));
    parse_i64_chars(&u)
}

/// Reads an integer argument (see [`spec_parse_int`]).
pub fn parse_int(s: &str) -> (r: Option<i64>)
    ensures
        r == spec_parse_int(s@),
{
    let v = str_chars(s);
    parse_int_chars(&v)
}

/// The pieces of `s` between commas (`str::split(',')`): always at least one.
pub open spec fn comma_pieces(s: Seq<char>) -> Seq<Seq<char>>
    decreases s.len(),
{
    if s.len() == 0 {
        seq![seq![]]
    } else {
        let p = comma_pieces(s.drop_last());
        if s.last() == ',' {
            p.push(seq![])
        } else {
            p.update(p.len() - 1, p.last().push(s.last()))
        }
    }
}

pub proof fn lemma_comma_pieces_nonempty(s: Seq<char>)
    ensures
        comma_pieces(s).len() >= 1,
    decreases s.len(),
{
    if s.len() > 0 {
        lemma_comma_pieces_nonempty(s.drop_last());
    }
}

/// The pieces that read as integers, in order (`filter_map(parse_int)`).
pub open spec fn parsed_ints(p: Seq<Seq<char>>) -> Seq<i64>
    decreases p.len(),
{
    if p.len() == 0 {
        seq![]
    } else {
        let rest = parsed_ints(p.drop_last());
        match spec_parse_int(p.last()) {
            Some(x) => rest.push(x),
            None => rest,
        }
    }
}

/// The affix list `[a,b,...]`: trimmed, leading `[` and trailing `]`
/// removed, split at commas, the pieces that read as integers kept.
pub open spec fn spec_parse_affixes(s: Seq<char>) -> Seq<i64> {
    parsed_ints(
        comma_pieces(
            trim_end_of(trim_start_of(trim_ws(s), CharClass::Exactly('[')), CharClass::Exactly(']')),
        ),
    )
}

/// Affix list of the characters `v` (see [`spec_parse_affixes`]).
pub fn parse_affixes_chars(v: &Vec<char>) -> (r: Vec<i64>)
    ensures
        r@ == spec_parse_affixes(v@),
{
    let t = trim_chars(v, CharClass::Whitespace);
    let t2 = trim_start_chars(&t, CharClass::Exactly('['));
    let inner = trim_end_chars(&t2, CharClass::Exactly(']'));
    let mut out: Vec<i64> = Vec::new();
    let mut cur: Vec<char> = Vec::new();
    let ghost mut done: Seq<Seq<char>> = seq![];
    let n = inner.len();
    let mut i: usize = 0;
    while i < n
        invariant
            i <= n == inner.len(),
            comma_pieces(inner@.take(i as int)) == done.push(cur@),
            out@ == parsed_ints(done),
        decreases n - i,
    {
        let c = inner[i];
        assert(inner@.take(i + 1).drop_last() =~= inner@.take(i as int));
        assert(inner@.take(i + 1).last() == c);
        if c == ',' {
            let x = parse_int_chars(&cur);
            proof {
                let d2 = done.push(cur@);
                assert(d2.drop_last() =~= done);
                assert(d2.last() == cur@);
                done = d2;
            }
            match x {
                Some(k) => out.push(k),
                None => {},
            }
            cur = Vec::new();
            assert(comma_pieces(inner@.take(i + 1)) =~= done.push(cur@));
        } else {
            cur.push(c);
            assert(comma_pieces(inner@.take(i + 1)) =~= done.push(cur@));
        }
        i += 1;
    }
    assert(inner@.take(n as int) =~= inner@);
    let x = parse_int_chars(&cur);
    let ghost all = done.push(cur@);
    assert(all.drop_last() =~= done);
    match x {
        Some(k) => out.push(k),
        None => {},
    }
    out
}

/// Reads an affix list `[a,b,...]` (see [`spec_parse_affixes`]).
pub fn parse_affixes(s: &str) -> (r: Vec<i64>)
    ensures
        r@ == spec_parse_affixes(s@),
{
    let v = str_chars(s);
    parse_affixes_chars(&v)
}

// ---------------------------------------------------------------------------
// Lines
// ---------------------------------------------------------------------------

pub open spec fn arg_at(args: Seq<Seq<char>>, i: int) -> Option<Seq<char>> {
    if 0 <= i < args.len() {
        Some(args[i])
    } else {
        None
    }
}

pub open spec fn int_arg(args: Seq<Seq<char>>, i: int) -> Option<i64> {
    match arg_at(args, i) {
        Some(a) => spec_parse_int(a),
        None => None,
    }
}

/// The start event that the arguments `args` describe:
/// `"zone", instanceID, challengeModeID, keystoneLevel, [affixes]`.
pub open spec fn start_view_of(args: Seq<Seq<char>>, ts: Seq<char>) -> StartView {
    StartView {
        zone: match arg_at(args, 0) {
            Some(a) => trim_of(trim_ws(a), CharClass::Exactly('"')),
            None => seq![],
        },
        instance_id: int_arg(args, 1),
        challenge_id: int_arg(args, 2),
        keystone_level: int_arg(args, 3),
        affixes: match arg_at(args, 4) {
            Some(a) => spec_parse_affixes(a),
            None => seq![],
        },
        log_timestamp: ts,
    }
}

/// The end event that the arguments `args` describe:
/// `instanceID, success(0/1), keystoneLevel, totalTimeMs`.
pub open spec fn end_view_of(args: Seq<Seq<char>>, ts: Seq<char>) -> EndView {
    EndView {
        instance_id: int_arg(args, 0),
        success: match int_arg(args, 1) {
            Some(v) => v != 0,
            None => false,
        },
        keystone_level: int_arg(args, 2),
        duration_ms: int_arg(args, 3),
        log_timestamp: ts,
    }
}

/// The Mythic+ event that a combat-log line holds, if any.
///
/// A line that does not contain `CHALLENGE_MODE_` holds none. Otherwise the
/// timestamp is what precedes the first two spaces (trimmed); after them come
/// the event name and, after the first comma, its arguments.
pub open spec fn spec_parse_line(line: Seq<char>) -> Option<EventView> {
    if find_first(line, "CHALLENGE_MODE_"@) is None {
        None
    } else {
        match find_first(line, "  "@) {
            None => None,
            Some(p) => {
                let rest = line.skip(p + 2);
                match find_first(rest, seq![',']) {
                    None => None,
                    Some(q) => {
                        let event = trim_ws(rest.take(q));
                        let args = spec_split_args(rest.skip(q + 1));
                        let ts = trim_ws(line.take(p));
                        if event == "CHALLENGE_MODE_START"@ {
                            Some(EventView::Start(start_view_of(args, ts)))
                        } else if event == "CHALLENGE_MODE_END"@ {
                            Some(EventView::End(end_view_of(args, ts)))
                        } else {
                            None
                        }
                    },
                }
            },
        }
    }
}

pub open spec fn event_opt_view(e: Option<LogEvent>) -> Option<EventView> {
    match e {
        Some(x) => Some(x@),
        None => None,
    }
}

fn arg_string(args: &Vec<Vec<char>>, i: usize) -> (r: Option<&Vec<char>>)
    ensures
        match r {
            Some(a) => i < args.len() && a@ == args@[i as int]@,
            None => i >= args.len(),
        },
{
    if i < args.len() {
        Some(&args[i])
    } else {
        None
    }
}

fn int_arg_exec(args: &Vec<Vec<char>>, i: usize) -> (r: Option<i64>)
    ensures
        r == (if i < args.len() {
            spec_parse_int(args@[i as int]@)
        } else {
            None
        }),
{
    match arg_string(args, i) {
        Some(a) => parse_int_chars(a),
        None => None,
    }
}

/// The Mythic+ event in the characters `line` (see [`spec_parse_line`]).
pub fn parse_line_chars(line: &Vec<char>) -> (r: Option<LogEvent>)
    ensures
        event_opt_view(r) == spec_parse_line(line@),
{
    let marker = str_chars("CHALLENGE_MODE_");
    if find_chars(line, &marker).is_none() {
        return None;
    }
    let gap = str_chars("  ");
    let p = match find_chars(line, &gap) {
        Some(p) => p,
        None => {
            return None;
        },
    };
    proof {
        reveal_strlit("  ");
        assert(gap@.len() == 2);
        lemma_find_from_bounds(line@, gap@, 0);
        assert(p + 2 <= line@.len());
    }
    let timestamp = copy_range(line, 0, p);
    assert(p + 2 <= line.len());
    let after_gap: usize = p + 2;
    let rest = copy_range(line, after_gap, line.len());
    assert(timestamp@ =~= line@.take(p as int));
    assert(rest@ =~= line@.skip(p + 2));
    let comma = str_chars(",");
    proof {
        reveal_strlit(",");
        assert(comma@ =~= seq![',']);
    }
    let q = match find_chars(&rest, &comma) {
        Some(q) => q,
        None => {
            return None;
        },
    };
    proof {
        lemma_find_from_bounds(rest@, comma@, 0);
    }
    let event_raw = copy_range(&rest, 0, q);
    let args_raw = copy_range(&rest, q + 1, rest.len());
    assert(event_raw@ =~= rest@.take(q as int));
    assert(args_raw@ =~= rest@.skip(q + 1));
    let event = trim_chars(&event_raw, CharClass::Whitespace);
    let args = split_args_chars(&args_raw);
    let ts_chars = trim_chars(&timestamp, CharClass::Whitespace);
    let log_timestamp = string_from_chars(&ts_chars);
    let ghost sargs = spec_split_args(args_raw@);
    let start_name = str_chars("CHALLENGE_MODE_START");
    let end_name = str_chars("CHALLENGE_MODE_END");
    if chars_eq(&event, &start_name) {
        let zone = match arg_string(&args, 0) {
            Some(a) => {
                let t = trim_chars(a, CharClass::Whitespace);
                let z = trim_chars(&t, CharClass::Exactly('"'));
                string_from_chars(&z)
            },
            None => String::new(),
        };
        let affixes = match arg_string(&args, 4) {
            Some(a) => parse_affixes_chars(a),
            None => Vec::new(),
        };
        let s = ChallengeStart {
            zone,
            instance_id: int_arg_exec(&args, 1),
            challenge_id: int_arg_exec(&args, 2),
            keystone_level: int_arg_exec(&args, 3),
            affixes,
            log_timestamp,
        };
        assert(s@.zone == start_view_of(sargs, ts_chars@).zone);
        assert(s@.affixes == start_view_of(sargs, ts_chars@).affixes);
        assert(s@ == start_view_of(sargs, ts_chars@));
        Some(LogEvent::ChallengeStart(s))
    } else if chars_eq(&event, &end_name) {
        let success = match int_arg_exec(&args, 1) {
            Some(v) => v != 0,
            None => false,
        };
        let e = ChallengeEnd {
            instance_id: int_arg_exec(&args, 0),
            success,
            keystone_level: int_arg_exec(&args, 2),
            duration_ms: int_arg_exec(&args, 3),
            log_timestamp,
        };
        assert(e@ == end_view_of(sargs, ts_chars@));
        Some(LogEvent::ChallengeEnd(e))
    } else {
        None
    }
}

/// Parses one combat-log line into a Mythic+ event, if it is one.
pub fn parse_line(line: &str) -> (r: Option<LogEvent>)
    ensures
        event_opt_view(r) == spec_parse_line(line@),
{
    let v = str_chars(line);
    parse_line_chars(&v)
}

// ---------------------------------------------------------------------------
// Laws
// ---------------------------------------------------------------------------

/// A line without the `CHALLENGE_MODE_` marker holds no Mythic+ event.
pub proof fn law_unmarked_line_has_no_event(line: Seq<char>)
    requires
        find_first(line, "CHALLENGE_MODE_"@) is None,
    ensures
        spec_parse_line(line) is None,
{
}

/// Whatever event a line holds carries as its timestamp the line's text
/// before the first two spaces, trimmed.
pub proof fn law_event_timestamp_is_line_prefix(line: Seq<char>)
    ensures
        spec_parse_line(line) matches Some(e) ==> find_first(line, "  "@) matches Some(p) && (
        match e {
            EventView::Start(s) => s.log_timestamp == trim_ws(line.take(p)),
            EventView::End(x) => x.log_timestamp == trim_ws(line.take(p)),
        }),
{
}

/// An argument list without quotes or brackets splits at every comma.
pub proof fn law_plain_args_split_at_commas(s: Seq<char>)
    requires
        forall|i: int|
            0 <= i < s.len() ==> #[trigger] s[i] != '"' && s[i] != '[' && s[i] != '(' && s[i]
                != ']' && s[i] != ')',
    ensures
        spec_split_args(s) == comma_pieces(s),
        arg_scan(s).depth == 0,
        !arg_scan(s).in_quotes,
    decreases s.len(),
{
    if s.len() > 0 {
        let t = s.drop_last();
        assert forall|i: int|
            0 <= i < t.len() implies #[trigger] t[i] != '"' && t[i] != '[' && t[i] != '(' && t[i]
            != ']' && t[i] != ')' by {
            assert(t[i] == s[i]);
        }
        law_plain_args_split_at_commas(t);
        let prev = arg_scan(t);
        let c = s.last();
        assert(s[s.len() - 1] == c);
        lemma_comma_pieces_nonempty(t);
        if c == ',' {
            assert(spec_split_args(s) =~= comma_pieces(s));
        } else {
            assert(spec_split_args(s) =~= comma_pieces(s));
        }
    }
}

proof fn lemma_scan_inside_quotes(t: Seq<char>)
    requires
        forall|i: int| 0 <= i < t.len() ==> #[trigger] t[i] != '"',
    ensures
        arg_scan(seq!['"'] + t).done == Seq::<Seq<char>>::empty(),
        arg_scan(seq!['"'] + t).cur == t,
        arg_scan(seq!['"'] + t).depth == 0,
        arg_scan(seq!['"'] + t).in_quotes,
    decreases t.len(),
{
    let s = seq!['"'] + t;
    if t.len() == 0 {
        let e = Seq::<char>::empty();
        assert(s.drop_last() =~= e);
        assert(s.last() == '"');
        assert(arg_scan(e).cur =~= e);
        assert(arg_scan(e).done =~= Seq::<Seq<char>>::empty());
        assert(t =~= e);
    } else {
        let u = t.drop_last();
        assert forall|i: int| 0 <= i < u.len() implies #[trigger] u[i] != '"' by {
            assert(u[i] == t[i]);
        }
        lemma_scan_inside_quotes(u);
        assert(s.drop_last() =~= seq!['"'] + u);
        assert(s.last() == t.last());
        assert(t[t.len() - 1] != '"');
        assert(u.push(t.last()) =~= t);
    }
}

/// A quoted argument is a single argument, whatever commas or brackets it
/// holds; its quotes are dropped.
pub proof fn law_quoted_argument_stays_whole(inner: Seq<char>)
    requires
        forall|i: int| 0 <= i < inner.len() ==> #[trigger] inner[i] != '"',
    ensures
        spec_split_args(seq!['"'] + inner + seq!['"']) == seq![inner],
{
    let s = seq!['"'] + inner + seq!['"'];
    lemma_scan_inside_quotes(inner);
    assert(s.drop_last() =~= seq!['"'] + inner);
    assert(s.last() == '"');
    assert(spec_split_args(s) =~= seq![inner]);
}

/// `s` without its `"` characters.
pub open spec fn unquoted(s: Seq<char>) -> Seq<char> {
    s.filter(|c: char| c != '"')
}

/// Whether `p` holds no `"`.
pub open spec fn has_no_quote(p: Seq<char>) -> bool {
    forall|i: int| 0 <= i < p.len() ==> #[trigger] p[i] != '"'
}

proof fn lemma_scan_rejoin(s: Seq<char>)
    ensures
        join_with(arg_scan(s).done.push(arg_scan(s).cur), ',') == unquoted(s),
        has_no_quote(arg_scan(s).cur),
        forall|k: int| 0 <= k < arg_scan(s).done.len() ==> has_no_quote(#[trigger] arg_scan(s).done[k]),
    decreases s.len(),
{
    reveal(Seq::filter);
    if s.len() == 0 {
        let ws = arg_scan(s).done.push(arg_scan(s).cur);
        assert(ws =~= seq![Seq::<char>::empty()]);
        assert(unquoted(s) =~= Seq::<char>::empty());
    } else {
        let t = s.drop_last();
        let c = s.last();
        lemma_scan_rejoin(t);
        let st = arg_scan(t);
        let ws = st.done.push(st.cur);
        let nx = scan_step(st, c);
        assert(arg_scan(s) == nx);
        assert(unquoted(s) == if c != '"' {
            unquoted(t).push(c)
        } else {
            unquoted(t)
        });
        if c == '"' {
        } else if c == ',' && !st.in_quotes && st.depth == 0 && !((c == '[' || c == '(') || (c == ']'
            || c == ')')) {
            let ws2 = nx.done.push(nx.cur);
            assert(ws2 =~= ws.push(Seq::<char>::empty()));
            assert(ws2.drop_last() =~= ws);
            assert(join_with(ws2, ',') =~= join_with(ws, ',').push(','));
            assert forall|k: int| 0 <= k < nx.done.len() implies has_no_quote(#[trigger] nx.done[k]) by {
                if k < st.done.len() {
                    assert(nx.done[k] == st.done[k]);
                }
            }
        } else {
            assert(nx.done == st.done);
            assert(nx.cur == st.cur.push(c));
            let ws2 = nx.done.push(nx.cur);
            assert(ws2 =~= ws.update(ws.len() - 1, ws.last().push(c)));
            lemma_join_extend_last(ws, c, ',');
            assert forall|i: int| 0 <= i < nx.cur.len() implies #[trigger] nx.cur[i] != '"' by {
                if i < st.cur.len() {
                    assert(nx.cur[i] == st.cur[i]);
                }
            }
        }
    }
}

/// The arguments, joined back with commas, give the text back without its
/// quotes; there is always at least one argument, and none holds a quote.
pub proof fn law_split_args_rejoin(s: Seq<char>)
    ensures
        join_with(spec_split_args(s), ',') == unquoted(s),
        spec_split_args(s).len() >= 1,
        forall|k: int| 0 <= k < spec_split_args(s).len() ==> has_no_quote(#[trigger] spec_split_args(s)[k]),
{
    lemma_scan_rejoin(s);
    let st = arg_scan(s);
    assert forall|k: int| 0 <= k < spec_split_args(s).len() implies has_no_quote(
        #[trigger] spec_split_args(s)[k],
    ) by {
        if k < st.done.len() {
            assert(spec_split_args(s)[k] == st.done[k]);
        }
    }
}

proof fn lemma_find_from_at(s: Seq<char>, pat: Seq<char>, i: int, k: int)
    requires
        0 <= i <= k,
        k + pat.len() <= s.len(),
        s.subrange(k, k + pat.len()) == pat,
        forall|j: int| i <= j < k ==> #[trigger] s.subrange(j, j + pat.len()) != pat,
    ensures
        find_from(s, pat, i) == Some(k),
    decreases k - i,
{
    if i < k {
        lemma_find_from_at(s, pat, i + 1, k);
    }
}

proof fn lemma_find_from_some(s: Seq<char>, pat: Seq<char>, i: int, k: int)
    requires
        0 <= i <= k,
        k + pat.len() <= s.len(),
        s.subrange(k, k + pat.len()) == pat,
    ensures
        find_from(s, pat, i) is Some,
    decreases k - i,
{
    if i < k && s.subrange(i, i + pat.len()) != pat {
        lemma_find_from_some(s, pat, i + 1, k);
    }
}

/// Whether `a` is a plain argument: no comma, quote or bracket.
pub open spec fn is_plain_arg(a: Seq<char>) -> bool {
    forall|i: int|
        0 <= i < a.len() ==> #[trigger] a[i] != ',' && a[i] != '"' && a[i] != '[' && a[i] != ']'
            && a[i] != '(' && a[i] != ')'
}

proof fn lemma_comma_pieces_single(y: Seq<char>)
    requires
        forall|i: int| 0 <= i < y.len() ==> #[trigger] y[i] != ',',
    ensures
        comma_pieces(y) == seq![y],
    decreases y.len(),
{
    if y.len() > 0 {
        let u = y.drop_last();
        assert forall|i: int| 0 <= i < u.len() implies #[trigger] u[i] != ',' by {
            assert(u[i] == y[i]);
        }
        lemma_comma_pieces_single(u);
        assert(y[y.len() - 1] != ',');
        assert(u.push(y.last()) =~= y);
        assert(comma_pieces(y) =~= seq![y]);
    } else {
        assert(y =~= Seq::<char>::empty());
    }
}

proof fn lemma_comma_pieces_append(x: Seq<char>, y: Seq<char>)
    requires
        forall|i: int| 0 <= i < y.len() ==> #[trigger] y[i] != ',',
    ensures
        comma_pieces(x + seq![','] + y) == comma_pieces(x).push(y),
    decreases y.len(),
{
    let s = x + seq![','] + y;
    if y.len() == 0 {
        assert(s.drop_last() =~= x);
        assert(s.last() == ',');
        assert(y =~= Seq::<char>::empty());
    } else {
        let u = y.drop_last();
        assert forall|i: int| 0 <= i < u.len() implies #[trigger] u[i] != ',' by {
            assert(u[i] == y[i]);
        }
        lemma_comma_pieces_append(x, u);
        assert(s.drop_last() =~= x + seq![','] + u);
        assert(s.last() == y.last());
        assert(y[y.len() - 1] != ',');
        assert(u.push(y.last()) =~= y);
        assert(comma_pieces(s) =~= comma_pieces(x).push(y));
    }
}

/// The text of a `CHALLENGE_MODE_END` line: the timestamp, two spaces, the
/// event name and its four arguments.
pub open spec fn end_line(
    ts: Seq<char>,
    instance: Seq<char>,
    success: Seq<char>,
    level: Seq<char>,
    duration: Seq<char>,
) -> Seq<char> {
    ts + "  CHALLENGE_MODE_END,"@ + instance + seq![','] + success + seq![','] + level + seq![',']
        + duration
}

/// A `CHALLENGE_MODE_END` line gives the end event whose fields are read from
/// its arguments by position — `instanceID, success(0/1), keystoneLevel,
/// totalTimeMs` — each independently of the others: the duration is the
/// fourth argument read as an integer, for a depleted key (success 0) as for
/// a timed one; the outcome is success when the second reads as a non-zero
/// integer; the timestamp is the trimmed text before the two spaces.
pub proof fn law_end_line_fields(
    ts: Seq<char>,
    instance: Seq<char>,
    success: Seq<char>,
    level: Seq<char>,
    duration: Seq<char>,
)
    requires
        forall|j: int| 0 <= j < ts.len() - 1 ==> !(#[trigger] ts[j] == ' ' && ts[j + 1] == ' '),
        ts.len() == 0 || ts.last() != ' ',
        is_plain_arg(instance),
        is_plain_arg(success),
        is_plain_arg(level),
        is_plain_arg(duration),
    ensures
        spec_parse_line(end_line(ts, instance, success, level, duration)) == Some(
            EventView::End(
                EndView {
                    instance_id: spec_parse_int(instance),
                    success: match spec_parse_int(success) {
                        Some(v) => v != 0,
                        None => false,
                    },
                    keystone_level: spec_parse_int(level),
                    duration_ms: spec_parse_int(duration),
                    log_timestamp: trim_ws(ts),
                },
            ),
        ),
{
    let args = instance + seq![','] + success + seq![','] + level + seq![','] + duration;
    reveal_strlit("  CHALLENGE_MODE_END,");
    reveal_strlit("CHALLENGE_MODE_END");
    reveal_strlit("CHALLENGE_MODE_START");
    reveal_strlit("CHALLENGE_MODE_");
    let name = "CHALLENGE_MODE_END"@;
    assert(name.take(15) =~= "CHALLENGE_MODE_"@);
    assert((name[0] as u32) == 67 && (name.last() as u32) == 68);
    lemma_event_line_layout(ts, name, args);
    assert(end_line(ts, instance, success, level, duration) =~= ts + seq![' ', ' '] + name
        + seq![','] + args);
    assert(name != "CHALLENGE_MODE_START"@) by {
        assert(name[15] != "CHALLENGE_MODE_START"@[15]);
    }
    lemma_end_args_split(instance, success, level, duration);
}

proof fn lemma_event_line_layout(ts: Seq<char>, name: Seq<char>, args: Seq<char>)
    requires
        forall|j: int| 0 <= j < ts.len() - 1 ==> !(#[trigger] ts[j] == ' ' && ts[j + 1] == ' '),
        ts.len() == 0 || ts.last() != ' ',
        name.len() >= 15,
        name.take(15) == "CHALLENGE_MODE_"@,
        forall|i: int| 0 <= i < name.len() ==> #[trigger] name[i] != ',',
        !is_ws(name[0]),
        !is_ws(name.last()),
    ensures
        ({
            let line = ts + seq![' ', ' '] + name + seq![','] + args;
            let p = ts.len() as int;
            let rest = line.skip(p + 2);
            &&& find_first(line, "CHALLENGE_MODE_"@) is Some
            &&& find_first(line, "  "@) == Some(p)
            &&& find_first(rest, seq![',']) == Some(name.len() as int)
            &&& trim_ws(rest.take(name.len() as int)) == name
            &&& rest.skip(name.len() as int + 1) == args
            &&& line.take(p) == ts
        }),
{
    reveal_strlit("CHALLENGE_MODE_");
    reveal_strlit("  ");
    let line = ts + seq![' ', ' '] + name + seq![','] + args;
    let p = ts.len() as int;
    let n = name.len() as int;
    // The event marker is there.
    let marker = "CHALLENGE_MODE_"@;
    assert(line.subrange(p + 2, p + 2 + marker.len()) =~= marker) by {
        assert forall|i: int| 0 <= i < 15 implies #[trigger] line.subrange(p + 2, p + 17)[i]
            == marker[i] by {
            assert(line[p + 2 + i] == name[i]);
            assert(name.take(15)[i] == name[i]);
        }
    }
    lemma_find_from_some(line, marker, 0, p + 2);
    // The first two spaces end the timestamp.
    let sp = "  "@;
    assert(line.subrange(p, p + 2) =~= sp);
    assert forall|j: int| 0 <= j < p implies #[trigger] line.subrange(j, j + sp.len()) != sp by {
        if line.subrange(j, j + 2) == sp {
            assert(line.subrange(j, j + 2)[0] == ' ');
            assert(line.subrange(j, j + 2)[1] == ' ');
            assert(line[j] == ts[j]);
            if j + 1 < p {
                assert(line[j + 1] == ts[j + 1]);
            } else {
                assert(ts.last() == ts[j]);
            }
        }
    }
    lemma_find_from_at(line, sp, 0, p);
    let rest = line.skip(p + 2);
    assert(rest =~= name + seq![','] + args);
    // The event name ends at the first comma.
    assert(rest.subrange(n, n + 1) =~= seq![',']);
    assert forall|j: int| 0 <= j < n implies #[trigger] rest.subrange(j, j + 1) != seq![','] by {
        assert(rest.subrange(j, j + 1)[0] == rest[j]);
        assert(rest[j] == name[j]);
    }
    lemma_find_from_at(rest, seq![','], 0, n);
    assert(rest.take(n) =~= name);
    assert(lead_len(name, CharClass::Whitespace) == 0);
    assert(trail_len(name, CharClass::Whitespace) == 0);
    assert(trim_ws(name) =~= name);
    assert(rest.skip(n + 1) =~= args);
    assert(line.take(p) =~= ts);
}

proof fn lemma_end_args_split(
    instance: Seq<char>,
    success: Seq<char>,
    level: Seq<char>,
    duration: Seq<char>,
)
    requires
        is_plain_arg(instance),
        is_plain_arg(success),
        is_plain_arg(level),
        is_plain_arg(duration),
    ensures
        spec_split_args(instance + seq![','] + success + seq![','] + level + seq![','] + duration)
            == seq![instance, success, level, duration],
{
    let args = instance + seq![','] + success + seq![','] + level + seq![','] + duration;
    assert forall|i: int|
        0 <= i < args.len() implies #[trigger] args[i] != '"' && args[i] != '[' && args[i]
        != '(' && args[i] != ']' && args[i] != ')' by {
        let a = instance.len() as int;
        let b = a + 1 + success.len();
        let c = b + 1 + level.len();
        if i < a {
            assert(args[i] == instance[i]);
        } else if a < i < b {
            assert(args[i] == success[i - a - 1]);
        } else if b < i < c {
            assert(args[i] == level[i - b - 1]);
        } else if c < i {
            assert(args[i] == duration[i - c - 1]);
        }
    }
    law_plain_args_split_at_commas(args);
    lemma_comma_pieces_single(instance);
    lemma_comma_pieces_append(instance, success);
    lemma_comma_pieces_append(instance + seq![','] + success, level);
    lemma_comma_pieces_append(instance + seq![','] + success + seq![','] + level, duration);
    assert(comma_pieces(args) =~= seq![instance, success, level, duration]);
}

proof fn lemma_scan_concat(x: Seq<char>, y: Seq<char>)
    requires
        arg_scan(x).depth == 0,
        !arg_scan(x).in_quotes,
        arg_scan(x).cur.len() == 0,
    ensures
        arg_scan(x + y) == (ArgScan {
            done: arg_scan(x).done + arg_scan(y).done,
            cur: arg_scan(y).cur,
            depth: arg_scan(y).depth,
            in_quotes: arg_scan(y).in_quotes,
        }),
    decreases y.len(),
{
    if y.len() == 0 {
        assert(x + y =~= x);
        assert(arg_scan(x).done + arg_scan(y).done =~= arg_scan(x).done);
        assert(arg_scan(y).cur =~= arg_scan(x).cur);
    } else {
        let u = y.drop_last();
        lemma_scan_concat(x, u);
        assert((x + y).drop_last() =~= x + u);
        assert((x + y).last() == y.last());
        let c = y.last();
        let a = arg_scan(u);
        if c == ',' && !a.in_quotes && a.depth == 0 {
            assert(arg_scan(x).done + a.done.push(a.cur) =~= (arg_scan(x).done + a.done).push(
                a.cur,
            ));
        }
        assert(arg_scan(x + y).done =~= arg_scan(x).done + arg_scan(y).done);
    }
}

/// Whether `t` holds no quote, bracket or parenthesis.
pub open spec fn is_bare_text(t: Seq<char>) -> bool {
    forall|i: int|
        0 <= i < t.len() ==> #[trigger] t[i] != '"' && t[i] != '[' && t[i] != ']' && t[i] != '('
            && t[i] != ')'
}

proof fn lemma_scan_inside_brackets(t: Seq<char>)
    requires
        is_bare_text(t),
    ensures
        arg_scan(seq!['['] + t) == (ArgScan {
            done: Seq::<Seq<char>>::empty(),
            cur: seq!['['] + t,
            depth: 1,
            in_quotes: false,
        }),
    decreases t.len(),
{
    let s = seq!['['] + t;
    if t.len() == 0 {
        let e = Seq::<char>::empty();
        assert(s.drop_last() =~= e);
        assert(s.last() == '[');
        assert(arg_scan(e).cur =~= e);
        assert(arg_scan(e).done =~= Seq::<Seq<char>>::empty());
        assert(arg_scan(s).cur =~= s);
    } else {
        let u = t.drop_last();
        assert forall|i: int| 0 <= i < u.len() implies #[trigger] u[i] != '"' && u[i] != '['
            && u[i] != ']' && u[i] != '(' && u[i] != ')' by {
            assert(u[i] == t[i]);
        }
        lemma_scan_inside_brackets(u);
        assert(s.drop_last() =~= seq!['['] + u);
        assert(s.last() == t.last());
        assert(t[t.len() - 1] == t.last());
        assert(arg_scan(s).cur =~= s);
    }
}

/// A bracketed list is a single argument, whatever commas it holds, as long
/// as it holds no further quotes or brackets.
pub proof fn law_bracketed_argument_stays_whole(inner: Seq<char>)
    requires
        is_bare_text(inner),
    ensures
        spec_split_args(seq!['['] + inner + seq![']']) == seq![seq!['['] + inner + seq![']']],
{
    let s = seq!['['] + inner + seq![']'];
    lemma_scan_inside_brackets(inner);
    assert(s.drop_last() =~= seq!['['] + inner);
    assert(s.last() == ']');
    assert(arg_scan(s).cur =~= s);
    assert(arg_scan(s).done =~= Seq::<Seq<char>>::empty());
    assert(spec_split_args(s) =~= seq![s]);
}

proof fn lemma_scan_plain_then_comma(a: Seq<char>)
    requires
        is_plain_arg(a),
    ensures
        arg_scan(a + seq![',']) == (ArgScan {
            done: seq![a],
            cur: Seq::<char>::empty(),
            depth: 0,
            in_quotes: false,
        }),
{
    assert forall|i: int| 0 <= i < a.len() implies #[trigger] a[i] != '"' && a[i] != '[' && a[i]
        != '(' && a[i] != ']' && a[i] != ')' by {}
    law_plain_args_split_at_commas(a);
    assert forall|i: int| 0 <= i < a.len() implies #[trigger] a[i] != ',' by {}
    lemma_comma_pieces_single(a);
    let st = arg_scan(a);
    assert(st.done.push(st.cur) == seq![a]);
    assert(st.done.len() == 0);
    assert(st.done =~= Seq::<Seq<char>>::empty());
    assert(st.cur == seq![a][0]);
    let s = a + seq![','];
    assert(s.drop_last() =~= a);
    assert(s.last() == ',');
    assert(arg_scan(s).done =~= seq![a]);
}

proof fn lemma_start_args_split(
    zone: Seq<char>,
    instance: Seq<char>,
    challenge: Seq<char>,
    level: Seq<char>,
    affixes: Seq<char>,
)
    requires
        forall|i: int| 0 <= i < zone.len() ==> #[trigger] zone[i] != '"',
        is_plain_arg(instance),
        is_plain_arg(challenge),
        is_plain_arg(level),
        is_bare_text(affixes),
    ensures
        spec_split_args(start_args(zone, instance, challenge, level, affixes)) == seq![instance, challenge, level].insert(0, zone).push(
            seq!['['] + affixes + seq![']'],
        ),
{
    let q = seq!['"'] + zone + seq!['"', ','];
    lemma_scan_inside_quotes(zone);
    let q1 = seq!['"'] + zone + seq!['"'];
    assert(q1.drop_last() =~= seq!['"'] + zone);
    assert(q1.last() == '"');
    assert(q.drop_last() =~= q1);
    assert(q.last() == ',');
    let s1 = arg_scan(q1);
    assert(s1.cur == zone && !s1.in_quotes && s1.depth == 0);
    assert(s1.done =~= Seq::<Seq<char>>::empty());
    assert(arg_scan(q).done =~= seq![zone]);
    assert(arg_scan(q).cur.len() == 0);
    let pi = instance + seq![','];
    let pc = challenge + seq![','];
    let pl = level + seq![','];
    let br = seq!['['] + affixes + seq![']'];
    lemma_scan_plain_then_comma(instance);
    lemma_scan_plain_then_comma(challenge);
    lemma_scan_plain_then_comma(level);
    lemma_scan_inside_brackets(affixes);
    assert(br.drop_last() =~= seq!['['] + affixes);
    assert(br.last() == ']');
    assert(arg_scan(br).cur =~= br);
    lemma_scan_concat(q, pi);
    lemma_scan_concat(q + pi, pc);
    lemma_scan_concat(q + pi + pc, pl);
    lemma_scan_concat(q + pi + pc + pl, br);
    let all = start_args(zone, instance, challenge, level, affixes);
    assert(all =~= q + pi + pc + pl + br);
    assert(spec_split_args(all) =~= seq![zone, instance, challenge, level, br]);
    assert(seq![instance, challenge, level].insert(0, zone).push(br) =~= seq![
        zone,
        instance,
        challenge,
        level,
        br,
    ]);
}

/// The text of a `CHALLENGE_MODE_START` line: the timestamp, two spaces,
/// the event name, the quoted zone, three plain arguments and the bracketed
/// affix list.
pub open spec fn start_line(
    ts: Seq<char>,
    zone: Seq<char>,
    instance: Seq<char>,
    challenge: Seq<char>,
    level: Seq<char>,
    affixes: Seq<char>,
) -> Seq<char> {
    ts + "  CHALLENGE_MODE_START,"@ + start_args(zone, instance, challenge, level, affixes)
}

/// The arguments of a `CHALLENGE_MODE_START` line:
/// `"zone",instance,challenge,level,[affixes]`.
pub open spec fn start_args(
    zone: Seq<char>,
    instance: Seq<char>,
    challenge: Seq<char>,
    level: Seq<char>,
    affixes: Seq<char>,
) -> Seq<char> {
    seq!['"'] + zone + seq!['"', ','] + instance + seq![','] + challenge + seq![','] + level
        + seq![',', '['] + affixes + seq![']']
}

/// A `CHALLENGE_MODE_START` line gives the start event whose fields are read
/// from its arguments by position — `"zone", instanceID, challengeModeID,
/// keystoneLevel, [affixes]`: the zone is the quoted text, whatever commas it
/// holds, without its quotes; the three numbers are read in that order; the
/// affixes come from the bracketed list; the timestamp is the trimmed text
/// before the two spaces.
pub proof fn law_start_line_fields(
    ts: Seq<char>,
    zone: Seq<char>,
    instance: Seq<char>,
    challenge: Seq<char>,
    level: Seq<char>,
    affixes: Seq<char>,
)
    requires
        forall|j: int| 0 <= j < ts.len() - 1 ==> !(#[trigger] ts[j] == ' ' && ts[j + 1] == ' '),
        ts.len() == 0 || ts.last() != ' ',
        forall|i: int| 0 <= i < zone.len() ==> #[trigger] zone[i] != '"',
        zone.len() == 0 || (!is_ws(zone[0]) && !is_ws(zone.last())),
        is_plain_arg(instance),
        is_plain_arg(challenge),
        is_plain_arg(level),
        is_bare_text(affixes),
    ensures
        spec_parse_line(start_line(ts, zone, instance, challenge, level, affixes)) == Some(
            EventView::Start(
                StartView {
                    zone: zone,
                    instance_id: spec_parse_int(instance),
                    challenge_id: spec_parse_int(challenge),
                    keystone_level: spec_parse_int(level),
                    affixes: spec_parse_affixes(seq!['['] + affixes + seq![']']),
                    log_timestamp: trim_ws(ts),
                },
            ),
        ),
{
    reveal_strlit("  CHALLENGE_MODE_START,");
    reveal_strlit("CHALLENGE_MODE_START");
    reveal_strlit("CHALLENGE_MODE_");
    let name = "CHALLENGE_MODE_START"@;
    let args = start_args(zone, instance, challenge, level, affixes);
    assert(name.take(15) =~= "CHALLENGE_MODE_"@);
    assert((name[0] as u32) == 67 && (name.last() as u32) == 84);
    lemma_event_line_layout(ts, name, args);
    let head = "  CHALLENGE_MODE_START,"@;
    assert(head =~= seq![' ', ' '] + name + seq![',']);
    assert(ts + head + args =~= ts + seq![' ', ' '] + name + seq![','] + args);
    lemma_start_args_split(zone, instance, challenge, level, affixes);
    let split = seq![instance, challenge, level].insert(0, zone).push(
        seq!['['] + affixes + seq![']'],
    );
    assert(split[0] == zone && split[1] == instance && split[2] == challenge && split[3] == level
        && split[4] == seq!['['] + affixes + seq![']']);
    lemma_zone_needs_no_trim(zone);
}

proof fn lemma_zone_needs_no_trim(zone: Seq<char>)
    requires
        forall|i: int| 0 <= i < zone.len() ==> #[trigger] zone[i] != '"',
        zone.len() == 0 || (!is_ws(zone[0]) && !is_ws(zone.last())),
    ensures
        trim_of(trim_ws(zone), CharClass::Exactly('"')) == zone,
{
    assert(lead_len(zone, CharClass::Whitespace) == 0);
    assert(trail_len(zone, CharClass::Whitespace) == 0);
    assert(trim_ws(zone) =~= zone);
    assert(lead_len(zone, CharClass::Exactly('"')) == 0);
    assert(trail_len(zone, CharClass::Exactly('"')) == 0) by {
        if zone.len() > 0 {
            assert(zone[zone.len() - 1] != '"');
        }
    }
    assert(trim_of(zone, CharClass::Exactly('"')) =~= zone);
}

/// The decimal texts of `vs`, in order.
pub open spec fn decimals(vs: Seq<i64>) -> Seq<Seq<char>> {
    vs.map_values(|v: i64| int_decimal(v as int))
}

proof fn lemma_parse_int_decimal(v: i64)
    ensures
        spec_parse_int(int_decimal(v as int)) == Some(v),
        forall|i: int| 0 <= i < int_decimal(v as int).len() ==> #[trigger] int_decimal(v as int)[i]
            != ',' && int_decimal(v as int)[i] != '[' && int_decimal(v as int)[i] != ']',
{
    let d = int_decimal(v as int);
    law_decimal_round_trip(v);
    lemma_trim_untouched(d, CharClass::Whitespace);
    assert(d[0] == '-' || is_digit(d[0]));
    assert(d[d.len() - 1] == '-' || is_digit(d[d.len() - 1]));
    lemma_trim_untouched(d, CharClass::Exactly('"'));
    assert forall|i: int| 0 <= i < d.len() implies #[trigger] d[i] != ',' && d[i] != '[' && d[i]
        != ']' by {
        assert(d[i] == '-' || is_digit(d[i]));
    }
}

proof fn lemma_comma_pieces_of_join(ds: Seq<Seq<char>>)
    requires
        ds.len() > 0,
        forall|k: int, i: int| 0 <= k < ds.len() && 0 <= i < ds[k].len() ==> #[trigger] ds[k][i] != ',',
    ensures
        comma_pieces(join_with(ds, ',')) == ds,
    decreases ds.len(),
{
    if ds.len() == 1 {
        assert forall|i: int| 0 <= i < ds[0].len() implies #[trigger] ds[0][i] != ',' by {
            assert(ds[0][i] != ',');
        }
        lemma_comma_pieces_single(ds[0]);
        assert(seq![ds[0]] =~= ds);
    } else {
        let u = ds.drop_last();
        assert forall|k: int, i: int| 0 <= k < u.len() && 0 <= i < u[k].len() implies #[trigger] u[k][i]
            != ',' by {
            assert(u[k] == ds[k]);
            assert(ds[k][i] != ',');
        }
        lemma_comma_pieces_of_join(u);
        let last = ds.last();
        assert forall|i: int| 0 <= i < last.len() implies #[trigger] last[i] != ',' by {
            assert(ds[ds.len() - 1][i] != ',');
        }
        assert(join_with(ds, ',') =~= join_with(u, ',') + seq![','] + last);
        lemma_comma_pieces_append(join_with(u, ','), last);
        assert(u.push(last) =~= ds);
    }
}

proof fn lemma_parsed_decimals(vs: Seq<i64>)
    ensures
        parsed_ints(decimals(vs)) == vs,
    decreases vs.len(),
{
    if vs.len() > 0 {
        let u = vs.drop_last();
        lemma_parsed_decimals(u);
        assert(decimals(vs).drop_last() =~= decimals(u));
        assert(decimals(vs).last() == int_decimal(vs.last() as int));
        lemma_parse_int_decimal(vs.last());
        assert(u.push(vs.last()) =~= vs);
    } else {
        assert(decimals(vs) =~= Seq::<Seq<char>>::empty());
        assert(vs =~= Seq::<i64>::empty());
    }
}

/// Reading an affix list back gives the affixes it was written from: the
/// decimal texts of `vs`, joined with commas and bracketed, read as `vs`, in
/// order, none lost or added.
pub proof fn law_affix_list_round_trip(vs: Seq<i64>)
    ensures
        spec_parse_affixes(seq!['['] + join_with(decimals(vs), ',') + seq![']']) == vs,
{
    let ds = decimals(vs);
    let body = join_with(ds, ',');
    let t = seq!['['] + body + seq![']'];
    assert(t[0] == '[' && t.last() == ']');
    assert(!is_ws('[') && !is_ws(']')) by {
        assert(('[' as u32) == 91);
        assert((']' as u32) == 93);
    }
    lemma_trim_untouched(t, CharClass::Whitespace);
    assert forall|k: int, i: int| 0 <= k < ds.len() && 0 <= i < ds[k].len() implies #[trigger] ds[k][i]
        != ',' && ds[k][i] != '[' && ds[k][i] != ']' by {
        lemma_parse_int_decimal(vs[k]);
        assert(ds[k] == int_decimal(vs[k] as int));
    }
    assert forall|k: int| 0 <= k < ds.len() implies (#[trigger] ds[k]).len() > 0 by {
        law_decimal_round_trip(vs[k]);
        assert(ds[k] == int_decimal(vs[k] as int));
    }
    if ds.len() > 0 {
        assert(ds[0].len() > 0);
        assert(ds[0][0] != '[');
        assert(ds.last().len() > 0);
        assert(ds[ds.len() - 1][ds.last().len() - 1] != ']');
    }
    // The leading `[` and the trailing `]` are the only brackets trimmed.
    let after = body + seq![']'];
    assert(t.drop_first() =~= after);
    if ds.len() > 0 {
        lemma_join_first_char(ds);
    }
    assert(lead_len(after, CharClass::Exactly('[')) == 0);
    assert(lead_len(t, CharClass::Exactly('[')) == 1);
    assert(trim_start_of(t, CharClass::Exactly('[')) =~= after);
    assert(after.drop_last() =~= body);
    if ds.len() > 0 {
        lemma_join_last_char(ds);
    }
    assert(trail_len(body, CharClass::Exactly(']')) == 0);
    assert(trail_len(after, CharClass::Exactly(']')) == 1);
    assert(trim_end_of(after, CharClass::Exactly(']')) =~= body);
    lemma_parsed_decimals(vs);
    assert(trim_ws(t) == t);
    assert(trim_end_of(trim_start_of(trim_ws(t), CharClass::Exactly('[')), CharClass::Exactly(']'))
        == body);
    assert(spec_parse_affixes(t) == parsed_ints(comma_pieces(body)));
    if ds.len() > 0 {
        lemma_comma_pieces_of_join(ds);
        assert(comma_pieces(body) == ds);
    } else {
        assert(body =~= Seq::<char>::empty());
        assert(comma_pieces(body) =~= seq![Seq::<char>::empty()]);
        let e = Seq::<char>::empty();
        lemma_trim_empty(e);
        assert(spec_parse_int(e) is None);
        assert(seq![e].drop_last() =~= Seq::<Seq<char>>::empty());
        assert(seq![e].last() == e);
        assert(parsed_ints(Seq::<Seq<char>>::empty()) =~= Seq::<i64>::empty());
        assert(parsed_ints(seq![e]) == parsed_ints(seq![e].drop_last()));
        assert(parsed_ints(seq![e]) =~= Seq::<i64>::empty());
        assert(vs =~= Seq::<i64>::empty());
    }
}

proof fn lemma_trim_empty(e: Seq<char>)
    requires
        e.len() == 0,
    ensures
        trim_of(trim_ws(e), CharClass::Exactly('"')).len() == 0,
{
}

proof fn lemma_join_first_char(ds: Seq<Seq<char>>)
    requires
        ds.len() > 0,
        forall|k: int, i: int| 0 <= k < ds.len() && 0 <= i < ds[k].len() ==> #[trigger] ds[k][i] != '['
            && ds[k][i] != ']',
        forall|k: int| 0 <= k < ds.len() ==> (#[trigger] ds[k]).len() > 0,
    ensures
        join_with(ds, ',').len() > 0,
        join_with(ds, ',')[0] == ds[0][0],
    decreases ds.len(),
{
    if ds.len() > 1 {
        let u = ds.drop_last();
        assert forall|k: int, i: int| 0 <= k < u.len() && 0 <= i < u[k].len() implies #[trigger] u[k][i]
            != '[' && u[k][i] != ']' by {
            assert(u[k] == ds[k]);
            assert(ds[k][i] != '[');
        }
        assert forall|k: int| 0 <= k < u.len() implies (#[trigger] u[k]).len() > 0 by {
            assert(u[k] == ds[k]);
        }
        lemma_join_first_char(u);
    }
}

proof fn lemma_join_last_char(ds: Seq<Seq<char>>)
    requires
        ds.len() > 0,
        ds.last().len() > 0,
    ensures
        join_with(ds, ',').len() > 0,
        join_with(ds, ',').last() == ds.last().last(),
{
}

/// A line of another `CHALLENGE_MODE_` event (such as a reset) holds no
/// start or end event, whatever its arguments.
pub proof fn law_other_challenge_events_ignored(ts: Seq<char>, name: Seq<char>, args: Seq<char>)
    requires
        forall|j: int| 0 <= j < ts.len() - 1 ==> !(#[trigger] ts[j] == ' ' && ts[j + 1] == ' '),
        ts.len() == 0 || ts.last() != ' ',
        name.len() >= 15,
        name.take(15) == "CHALLENGE_MODE_"@,
        forall|i: int| 0 <= i < name.len() ==> #[trigger] name[i] != ',',
        !is_ws(name[0]),
        !is_ws(name.last()),
        name != "CHALLENGE_MODE_START"@,
        name != "CHALLENGE_MODE_END"@,
    ensures
        spec_parse_line(ts + seq![' ', ' '] + name + seq![','] + args) is None,
{
    lemma_event_line_layout(ts, name, args);
}

} // verus!
