//! Following the newest combat log: which file to read, from where, and which
//! events the newly written complete lines hold.
//!
//! The caller polls: it tells the [`Tailer`] the newest log file and its
//! length, reads the bytes that [`Tailer::sync_len`] asks for, hands them to
//! [`scan_chunk`], and moves the position on by what was consumed.

use vstd::prelude::*;

use crate::combatlog::{parse_line_chars, spec_parse_line, EventView, LogEvent};
use vstd::utf8::{decode_utf8, valid_utf8};

use crate::text::{str_chars, trim_end_chars, trim_end_of, CharClass};

verus! {

/// What `String::from_utf8_lossy` makes of `bytes`.
pub uninterp spec fn utf8_lossy(bytes: Seq<u8>) -> Seq<char>;

/// Decodes `bytes` with `String::from_utf8_lossy` (invalid sequences become
/// U+FFFD). The contract claims that the text is a function of the bytes and
/// that valid UTF-8 decodes to the characters it encodes; what replaces an
/// invalid sequence is left unsaid.
#[verifier::external_body]
fn decode_lossy(bytes: &[u8]) -> (s: String)
    ensures
        s@ == utf8_lossy(bytes@),
        valid_utf8(bytes@) ==> s@ == decode_utf8(bytes@),
{
    String::from_utf8_lossy(bytes).into_owned()
}

/// Where the tail of the combat log stands: the file followed, and the byte
/// offset up to which it has been read.
pub struct Tailer {
    current: Option<String>,
    position: u64,
}

/// What a [`Tailer`] holds, as mathematical values.
pub struct TailerView {
    pub current: Option<Seq<char>>,
    pub position: nat,
}

impl View for Tailer {
    type V = TailerView;

    closed spec fn view(&self) -> TailerView {
        TailerView {
            current: match self.current {
                Some(c) => Some(c@),
                None => None,
            },
            position: self.position as nat,
        }
    }
}

impl Tailer {
    /// Following no file yet.
    pub fn new() -> (t: Tailer)
        ensures
            t@.current is None,
            t@.position == 0,
    {
        Tailer { current: None, position: 0 }
    }

    /// The file being followed.
    pub fn current(&self) -> (r: Option<&String>)
        ensures
            match r {
                Some(c) => self@.current == Some(c@),
                None => self@.current is None,
            },
    {
        match &self.current {
            Some(c) => Some(c),
            None => None,
        }
    }

    /// The offset up to which the followed file has been read.
    pub fn position(&self) -> (p: u64)
        ensures
            p == self@.position,
    {
        self.position
    }

    /// Takes note of the newest log file (`latest`, of length `latest_len`).
    /// A file other than the one followed, or a first one, is followed from
    /// its end: what it held before is not replayed. Otherwise nothing changes.
    pub fn follow(&mut self, latest: Option<String>, latest_len: u64)
        ensures
            match latest {
                Some(l) => if old(self)@.current != Some(l@) {
                    final(self)@.current == Some(l@) && final(self)@.position == latest_len
                } else {
                    final(self)@ == old(self)@
                },
                None => final(self)@ == old(self)@,
            },
    {
        match latest {
            Some(l) => {
                let same = match &self.current {
                    Some(c) => *c == l,
                    None => false,
                };
                if !same {
                    self.current = Some(l);
                    self.position = latest_len;
                }
            },
            None => {},
        }
    }

    /// Takes note of the followed file's length `len`. A file shorter than
    /// the position was truncated or rotated: reading starts over at 0.
    /// Returns whether there are bytes past the position to read.
    pub fn sync_len(&mut self, len: u64) -> (more: bool)
        ensures
            final(self)@.current == old(self)@.current,
            final(self)@.position == (if len < old(self)@.position {
                0
            } else {
                old(self)@.position
            }),
            more == (len > final(self)@.position),
    {
        if len < self.position {
            self.position = 0;
        }
        len > self.position
    }

    /// Moves the position past `consumed` bytes that were read and scanned.
    pub fn advance(&mut self, consumed: u64)
        requires
            old(self)@.position + consumed <= u64::MAX,
        ensures
            final(self)@.current == old(self)@.current,
            final(self)@.position == old(self)@.position + consumed,
    {
        self.position = self.position + consumed;
    }
}

/// The complete lines (each ending in `\n`, which it keeps) among the first
/// `n` bytes of `chunk`, and where the unfinished line after them starts.
pub open spec fn lines_upto(chunk: Seq<u8>, n: int) -> (Seq<Seq<u8>>, int)
    decreases n,
{
    if n <= 0 {
        (seq![], 0)
    } else {
        let prev = lines_upto(chunk, n - 1);
        if chunk[n - 1] == 10u8 {
            (prev.0.push(chunk.subrange(prev.1, n)), n)
        } else {
            prev
        }
    }
}

/// The complete lines of `chunk`.
pub open spec fn complete_lines(chunk: Seq<u8>) -> Seq<Seq<u8>> {
    lines_upto(chunk, chunk.len() as int).0
}

/// The number of bytes of `chunk` that its complete lines take up.
pub open spec fn complete_len(chunk: Seq<u8>) -> int {
    lines_upto(chunk, chunk.len() as int).1
}

/// The event of one complete line: decoded lossily, trailing whitespace
/// removed, then parsed.
pub open spec fn line_event(line: Seq<u8>) -> Option<EventView> {
    spec_parse_line(trim_end_of(utf8_lossy(line), CharClass::Whitespace))
}

/// The events of `lines`, in order.
pub open spec fn events_of(lines: Seq<Seq<u8>>) -> Seq<EventView>
    decreases lines.len(),
{
    if lines.len() == 0 {
        seq![]
    } else {
        let rest = events_of(lines.drop_last());
        match line_event(lines.last()) {
            Some(e) => rest.push(e),
            None => rest,
        }
    }
}

pub proof fn lemma_lines_upto_bounds(chunk: Seq<u8>, n: int)
    requires
        0 <= n <= chunk.len(),
    ensures
        0 <= lines_upto(chunk, n).1 <= n,
        lines_upto(chunk, n).1 == 0 || chunk[lines_upto(chunk, n).1 - 1] == 10u8,
        forall|k: int| lines_upto(chunk, n).1 <= k < n ==> chunk[k] != 10u8,
    decreases n,
{
    if n > 0 {
        lemma_lines_upto_bounds(chunk, n - 1);
    }
}

/// The bytes of `chunk[lo..hi]`.
fn byte_range(chunk: &[u8], lo: usize, hi: usize) -> (r: Vec<u8>)
    requires
        lo <= hi <= chunk@.len(),
    ensures
        r@ == chunk@.subrange(lo as int, hi as int),
{
    let mut r: Vec<u8> = Vec::new();
    let mut i = lo;
    while i < hi
        invariant
            lo <= i <= hi <= chunk@.len(),
            r@ == chunk@.subrange(lo as int, i as int),
        decreases hi - i,
    {
        r.push(chunk[i]);
        i += 1;
    }
    r
}

/// The events of one complete line (see [`line_event`]).
fn scan_line(line: &Vec<u8>) -> (r: Option<LogEvent>)
    ensures
        match r {
            Some(e) => line_event(line@) == Some(e@),
            None => line_event(line@) is None,
        },
{
    let text = decode_lossy(line.as_slice());
    let chars = str_chars(text.as_str());
    let trimmed = trim_end_chars(&chars, CharClass::Whitespace);
    parse_line_chars(&trimmed)
}

/// Scans bytes read from the log: the events of its complete lines, in
/// order, and the number of bytes those lines take up. A trailing line
/// without its `\n` is left for the next read.
pub fn scan_chunk(chunk: &[u8]) -> (r: (Vec<LogEvent>, usize))
    ensures
        r.1 == complete_len(chunk@),
        r.0.len() == events_of(complete_lines(chunk@)).len(),
        forall|k: int|
            0 <= k < r.0.len() ==> (#[trigger] r.0@[k])@ == events_of(complete_lines(chunk@))[k],
{
    let mut events: Vec<LogEvent> = Vec::new();
    let mut start: usize = 0;
    let n = chunk.len();
    let mut i: usize = 0;
    while i < n
        invariant
            i <= n == chunk@.len(),
            start == lines_upto(chunk@, i as int).1,
            events.len() == events_of(lines_upto(chunk@, i as int).0).len(),
            forall|k: int|
                0 <= k < events.len() ==> (#[trigger] events@[k])@ == events_of(
                    lines_upto(chunk@, i as int).0,
                )[k],
        decreases n - i,
    {
        proof {
            lemma_lines_upto_bounds(chunk@, i as int);
        }
        if chunk[i] == 10u8 {
            let line = byte_range(chunk, start, i + 1);
            let ev = scan_line(&line);
            let ghost prev = lines_upto(chunk@, i as int).0;
            let ghost next = prev.push(line@);
            assert(lines_upto(chunk@, i + 1).0 == next);
            assert(next.drop_last() =~= prev);
            assert(next.last() == line@);
            match ev {
                Some(e) => {
                    events.push(e);
                },
                None => {},
            }
            start = i + 1;
        }
        i += 1;
    }
    (events, start)
}

// ---------------------------------------------------------------------------
// Laws
// ---------------------------------------------------------------------------

/// What is consumed ends just after a newline (or is nothing), and what is
/// left holds no newline: an unfinished line waits for the next poll.
pub proof fn law_unfinished_line_is_left(chunk: Seq<u8>)
    ensures
        0 <= complete_len(chunk) <= chunk.len(),
        complete_len(chunk) == 0 || chunk[complete_len(chunk) - 1] == 10u8,
        forall|k: int| complete_len(chunk) <= k < chunk.len() ==> chunk[k] != 10u8,
{
    lemma_lines_upto_bounds(chunk, chunk.len() as int);
}

proof fn lemma_lines_upto_prefix(a: Seq<u8>, b: Seq<u8>, n: int)
    requires
        0 <= n <= a.len(),
    ensures
        lines_upto(a + b, n) == lines_upto(a, n),
    decreases n,
{
    if n > 0 {
        lemma_lines_upto_prefix(a, b, n - 1);
        lemma_lines_upto_bounds(a, n - 1);
        assert((a + b)[n - 1] == a[n - 1]);
        let st = lines_upto(a, n - 1).1;
        assert((a + b).subrange(st, n) =~= a.subrange(st, n));
    }
}

proof fn lemma_lines_upto_no_newline(s: Seq<u8>, m: int, n: int)
    requires
        0 <= m <= n <= s.len(),
        forall|k: int| m <= k < n ==> s[k] != 10u8,
    ensures
        lines_upto(s, n) == lines_upto(s, m),
    decreases n,
{
    if n > m {
        lemma_lines_upto_no_newline(s, m, n - 1);
    }
}

proof fn lemma_lines_upto_shift(s: Seq<u8>, c: int, j: int)
    requires
        0 <= c <= s.len(),
        0 <= j <= s.len() - c,
        lines_upto(s, c).1 == c,
    ensures
        lines_upto(s, c + j).0 == lines_upto(s, c).0 + lines_upto(s.skip(c), j).0,
        lines_upto(s, c + j).1 == c + lines_upto(s.skip(c), j).1,
    decreases j,
{
    let t = s.skip(c);
    if j == 0 {
        assert(lines_upto(s, c).0 + lines_upto(t, 0).0 =~= lines_upto(s, c).0);
    } else {
        lemma_lines_upto_shift(s, c, j - 1);
        lemma_lines_upto_bounds(t, j - 1);
        assert(t[j - 1] == s[c + j - 1]);
        let st = lines_upto(t, j - 1).1;
        assert(s.subrange(c + st, c + j) =~= t.subrange(st, j));
        assert(lines_upto(s, c + j).0 =~= lines_upto(s, c).0 + lines_upto(t, j).0);
    }
}

proof fn lemma_events_of_concat(x: Seq<Seq<u8>>, y: Seq<Seq<u8>>)
    ensures
        events_of(x + y) == events_of(x) + events_of(y),
    decreases y.len(),
{
    if y.len() == 0 {
        assert(x + y =~= x);
        assert(events_of(x) + events_of(y) =~= events_of(x));
    } else {
        lemma_events_of_concat(x, y.drop_last());
        assert((x + y).drop_last() =~= x + y.drop_last());
        assert((x + y).last() == y.last());
        match line_event(y.last()) {
            Some(e) => {
                assert(events_of(x + y) =~= events_of(x) + events_of(y));
            },
            None => {},
        }
    }
}

/// Tailing loses and repeats nothing: reading `a`, then reading what it
/// left unconsumed together with what was written after (`b`), consumes as
/// much and yields the same events, in the same order, as reading `a + b`
/// at once.
pub proof fn law_split_reads(a: Seq<u8>, b: Seq<u8>)
    ensures
        complete_len(a) + complete_len(a.skip(complete_len(a)) + b) == complete_len(a + b),
        events_of(complete_lines(a)) + events_of(complete_lines(a.skip(complete_len(a)) + b))
            == events_of(complete_lines(a + b)),
{
    let s = a + b;
    let c = complete_len(a);
    lemma_lines_upto_bounds(a, a.len() as int);
    lemma_lines_upto_no_newline(a, c, a.len() as int);
    lemma_lines_upto_prefix(a, b, c);
    let t = a.skip(c) + b;
    assert(t =~= s.skip(c));
    lemma_lines_upto_shift(s, c, s.len() - c);
    assert(c + (s.len() - c) == s.len());
    lemma_events_of_concat(complete_lines(a), complete_lines(t));
}

/// Whether `line` is one whole line: it ends with its only newline.
pub open spec fn is_whole_line(line: Seq<u8>) -> bool {
    &&& line.len() > 0
    &&& line.last() == 10u8
    &&& forall|j: int| 0 <= j < line.len() - 1 ==> #[trigger] line[j] != 10u8
}

proof fn lemma_lines_upto_cover(chunk: Seq<u8>, n: int)
    requires
        0 <= n <= chunk.len(),
    ensures
        lines_upto(chunk, n).0.flatten_alt() == chunk.take(lines_upto(chunk, n).1),
        forall|k: int|
            0 <= k < lines_upto(chunk, n).0.len() ==> is_whole_line(
                #[trigger] lines_upto(chunk, n).0[k],
            ),
    decreases n,
{
    if n > 0 {
        lemma_lines_upto_cover(chunk, n - 1);
        lemma_lines_upto_bounds(chunk, n - 1);
        let prev = lines_upto(chunk, n - 1);
        if chunk[n - 1] == 10u8 {
            let line = chunk.subrange(prev.1, n);
            let ls = prev.0.push(line);
            assert(ls.drop_last() =~= prev.0);
            assert(ls.flatten_alt() == prev.0.flatten_alt() + line);
            assert(chunk.take(prev.1) + line =~= chunk.take(n));
            assert forall|j: int| 0 <= j < line.len() - 1 implies #[trigger] line[j] != 10u8 by {
                assert(line[j] == chunk[prev.1 + j]);
            }
            assert(is_whole_line(line));
            assert forall|k: int| 0 <= k < ls.len() implies is_whole_line(#[trigger] ls[k]) by {
                if k < prev.0.len() {
                    assert(ls[k] == prev.0[k]);
                }
            }
        }
    }
}

/// The complete lines are the consumed bytes cut at each newline: laid end to
/// end, in order, they give back exactly the consumed prefix of the chunk,
/// and each is one whole line, ending with its only newline. So each line
/// starts right after the previous newline, or at the start of the chunk.
pub proof fn law_lines_cover_consumed(chunk: Seq<u8>)
    ensures
        complete_lines(chunk).flatten_alt() == chunk.take(complete_len(chunk)),
        forall|k: int|
            0 <= k < complete_lines(chunk).len() ==> is_whole_line(#[trigger] complete_lines(chunk)[k]),
{
    lemma_lines_upto_cover(chunk, chunk.len() as int);
}

} // verus!
