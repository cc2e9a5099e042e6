use wow_recorder::combatlog::LogEvent;
use wow_recorder::tail::{scan_chunk, Tailer};

#[test]
fn scan_chunk_leaves_partial_line() {
    let chunk = b"9/14 20:34:51.900  CHALLENGE_MODE_END,2648,1,10,1826000\r\nxx  SPELL_DAMAGE,1\n9/14 20:01:05.123  CHALLENGE_MODE_START,\"Z\",1";
    let (events, consumed) = scan_chunk(chunk);
    assert_eq!(consumed, chunk.iter().rposition(|b| *b == b'\n').unwrap() + 1);
    assert_eq!(events.len(), 1);
    match &events[0] {
        LogEvent::ChallengeEnd(e) => {
            assert!(e.success);
            assert_eq!(e.duration_ms, Some(1826000));
        }
        _ => panic!("expected end"),
    }
}

#[test]
fn scan_chunk_without_newline_consumes_nothing() {
    let (events, consumed) = scan_chunk(b"t  CHALLENGE_MODE_END,1,1,1,1");
    assert!(events.is_empty());
    assert_eq!(consumed, 0);
}

#[test]
fn scan_chunk_in_two_reads_matches_one_read() {
    let all: &[u8] = b"a  CHALLENGE_MODE_START,\"Z\",1,2,3,[4]\nb  CHALLENGE_MODE_END,1,0,3,9\nc  CHALLENGE_MODE_END,2,1,3,9\n";
    let (whole, n_whole) = scan_chunk(all);
    let cut = 50;
    let (first, n_first) = scan_chunk(&all[..cut]);
    let (second, n_second) = scan_chunk(&all[n_first..]);
    assert_eq!(n_first + n_second, n_whole);
    assert_eq!(first.len() + second.len(), whole.len());
    assert_eq!(whole.len(), 3);
}

#[test]
fn scan_chunk_decodes_invalid_utf8_lossily() {
    let mut chunk = b"t  CHALLENGE_MODE_START,\"Z".to_vec();
    chunk.push(0xff);
    chunk.extend_from_slice(b"\",1\n");
    let (events, _) = scan_chunk(&chunk);
    match &events[0] {
        LogEvent::ChallengeStart(s) => assert_eq!(s.zone, "Z\u{fffd}"),
        _ => panic!("expected start"),
    }
}

#[test]
fn tailer_starts_new_file_at_its_end() {
    let mut t = Tailer::new();
    assert!(t.current().is_none());
    t.follow(Some("a.txt".to_string()), 100);
    assert_eq!(t.current().map(|s| s.as_str()), Some("a.txt"));
    assert_eq!(t.position(), 100);
    // same file again: nothing changes
    t.follow(Some("a.txt".to_string()), 500);
    assert_eq!(t.position(), 100);
    // no file: nothing changes
    t.follow(None, 7);
    assert_eq!(t.position(), 100);
    // a new file rolls in
    t.follow(Some("b.txt".to_string()), 42);
    assert_eq!(t.current().map(|s| s.as_str()), Some("b.txt"));
    assert_eq!(t.position(), 42);
}

#[test]
fn tailer_reads_growth_and_resets_on_truncation() {
    let mut t = Tailer::new();
    t.follow(Some("a.txt".to_string()), 10);
    assert!(!t.sync_len(10));
    assert!(t.sync_len(25));
    t.advance(12);
    assert_eq!(t.position(), 22);
    assert!(t.sync_len(5));
    assert_eq!(t.position(), 0);
}
