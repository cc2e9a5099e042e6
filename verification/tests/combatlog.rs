use wow_recorder::combatlog::{parse_affixes, parse_int, parse_line, split_args, LogEvent};

#[test]
fn parses_challenge_start() {
    let line = r#"9/14 20:01:05.123  CHALLENGE_MODE_START,"Ara-Kara, City of Echoes",2648,542,10,[10,9,147]"#;
    match parse_line(line).unwrap() {
        LogEvent::ChallengeStart(s) => {
            assert_eq!(s.zone, "Ara-Kara, City of Echoes");
            assert_eq!(s.instance_id, Some(2648));
            assert_eq!(s.challenge_id, Some(542));
            assert_eq!(s.keystone_level, Some(10));
            assert_eq!(s.affixes, vec![10, 9, 147]);
            assert_eq!(s.log_timestamp, "9/14 20:01:05.123");
        }
        _ => panic!("expected start"),
    }
}

#[test]
fn parses_challenge_end_success() {
    let line = "9/14 20:34:51.900  CHALLENGE_MODE_END,2648,1,10,1826000";
    match parse_line(line).unwrap() {
        LogEvent::ChallengeEnd(e) => {
            assert_eq!(e.instance_id, Some(2648));
            assert!(e.success);
            assert_eq!(e.keystone_level, Some(10));
            assert_eq!(e.duration_ms, Some(1826000));
        }
        _ => panic!("expected end"),
    }
}

#[test]
fn parses_challenge_end_depleted() {
    let line = "9/14 20:34:51.900  CHALLENGE_MODE_END,2648,0,10,2400000";
    match parse_line(line).unwrap() {
        LogEvent::ChallengeEnd(e) => assert!(!e.success),
        _ => panic!("expected end"),
    }
}

#[test]
fn ignores_unrelated_lines() {
    assert!(parse_line("9/14 20:01:05.123  SPELL_DAMAGE,Player-1,\"x\"").is_none());
    assert!(parse_line("garbage").is_none());
}

#[test]
fn newer_timestamp_format_with_year() {
    let line = r#"9/14/2026 20:01:05.123-4  CHALLENGE_MODE_START,"Zone",1,2,7,[1]"#;
    match parse_line(line).unwrap() {
        LogEvent::ChallengeStart(s) => {
            assert_eq!(s.keystone_level, Some(7));
            assert_eq!(s.log_timestamp, "9/14/2026 20:01:05.123-4");
        }
        _ => panic!("expected start"),
    }
}

#[test]
fn split_args_respects_quotes_and_nesting() {
    let parts = split_args(r#""a, b",[1,2],(x,y),3"#);
    assert_eq!(parts, vec!["a, b", "[1,2]", "(x,y)", "3"]);
}

#[test]
fn split_args_plain_text_splits_at_every_comma() {
    assert_eq!(split_args("1,,2"), vec!["1", "", "2"]);
    assert_eq!(split_args(""), vec![""]);
}

#[test]
fn split_args_unbalanced_closing_bracket_keeps_commas() {
    // depth goes to -1 after ']', so later commas do not split
    assert_eq!(split_args("a],b,c"), vec!["a],b,c"]);
}

#[test]
fn parse_int_trims_spaces_and_quotes() {
    assert_eq!(parse_int("  \"42\" "), Some(42));
    assert_eq!(parse_int("-7"), Some(-7));
    assert_eq!(parse_int("+7"), Some(7));
    assert_eq!(parse_int("-9223372036854775808"), Some(i64::MIN));
    assert_eq!(parse_int("9223372036854775808"), None);
    assert_eq!(parse_int(""), None);
    assert_eq!(parse_int("-"), None);
    assert_eq!(parse_int("1a"), None);
}

#[test]
fn parse_affixes_keeps_integer_pieces() {
    assert_eq!(parse_affixes(" [10, 9,x,147] "), vec![10, 9, 147]);
    assert_eq!(parse_affixes("[]"), Vec::<i64>::new());
    assert_eq!(parse_affixes("[[5]]"), vec![5]);
}

#[test]
fn line_without_double_space_is_no_event() {
    assert!(parse_line("9/14 20:01:05.123 CHALLENGE_MODE_END,1,1,2,3").is_none());
}

#[test]
fn line_without_comma_is_no_event() {
    assert!(parse_line("9/14 20:01:05.123  CHALLENGE_MODE_END").is_none());
}

#[test]
fn end_with_missing_arguments() {
    match parse_line("t  CHALLENGE_MODE_END,5").unwrap() {
        LogEvent::ChallengeEnd(e) => {
            assert_eq!(e.instance_id, Some(5));
            assert!(!e.success);
            assert_eq!(e.keystone_level, None);
            assert_eq!(e.duration_ms, None);
            assert_eq!(e.log_timestamp, "t");
        }
        _ => panic!("expected end"),
    }
}

#[test]
fn start_with_missing_affixes() {
    match parse_line("t  CHALLENGE_MODE_START, \"Zone\" ,x").unwrap() {
        LogEvent::ChallengeStart(s) => {
            assert_eq!(s.zone, "Zone");
            assert_eq!(s.instance_id, None);
            assert_eq!(s.challenge_id, None);
            assert!(s.affixes.is_empty());
        }
        _ => panic!("expected start"),
    }
}

#[test]
fn unknown_challenge_event_is_no_event() {
    assert!(parse_line("t  CHALLENGE_MODE_RESET,1").is_none());
}

#[test]
fn quoted_argument_stays_whole() {
    assert_eq!(split_args("\"a,[b(\""), vec!["a,[b("]);
}

#[test]
fn split_args_rejoin_to_the_unquoted_text() {
    let text = "\"Ara-Kara, City of Echoes\",2648,[10,9,147],(1,2)";
    let parts = split_args(text);
    assert_eq!(parts.join(","), text.replace('"', ""));
    assert!(parts.iter().all(|p| !p.contains('"')));
    assert_eq!(split_args("").len(), 1);
}
