use wow_recorder::logfiles::{
    log_dir_candidates, log_file_pattern, newest_log, LogFileEntry, NamePattern, MAX_AGE_MS,
};

fn entry(name: &str, modified_ms: i64) -> LogFileEntry {
    LogFileEntry { name: name.to_string(), modified_ms }
}

#[test]
fn log_pattern_matches_combat_logs_only() {
    let p = log_file_pattern().unwrap();
    assert!(p.is_match("WoWCombatLog-091424_200105.txt"));
    assert!(p.is_match("WoWCombatLog.txt"));
    assert!(!p.is_match("WoWCombatLog.txt.bak"));
    assert!(!p.is_match("Other.txt"));
}

#[test]
fn invalid_pattern_is_refused() {
    assert!(NamePattern::new("(").is_none());
}

#[test]
fn newest_fresh_log_is_chosen() {
    let p = log_file_pattern().unwrap();
    let now = 100_000_000;
    let entries = vec![
        entry("WoWCombatLog-1.txt", now - 1000),
        entry("notes.txt", now),
        entry("WoWCombatLog-2.txt", now - 10),
        entry("WoWCombatLog-3.txt", now - MAX_AGE_MS - 1),
    ];
    assert_eq!(newest_log(&entries, &p, now), Some(2));
}

#[test]
fn ties_go_to_the_last() {
    let p = log_file_pattern().unwrap();
    let entries = vec![entry("WoWCombatLog-a.txt", 5), entry("WoWCombatLog-b.txt", 5)];
    assert_eq!(newest_log(&entries, &p, 10), Some(1));
}

#[test]
fn stale_logs_are_ignored() {
    let p = log_file_pattern().unwrap();
    let entries = vec![entry("WoWCombatLog-a.txt", 0)];
    assert_eq!(newest_log(&entries, &p, MAX_AGE_MS), Some(0));
    assert_eq!(newest_log(&entries, &p, MAX_AGE_MS + 1), None);
    assert_eq!(newest_log(&Vec::new(), &p, 0), None);
}

#[test]
fn log_dirs_are_tried_flavor_by_flavor() {
    let s = std::path::MAIN_SEPARATOR;
    let dirs = vec!["/pf86".to_string(), "/pf".to_string()];
    let r = log_dir_candidates(&dirs, &vec!['C', 'E']);
    assert_eq!(r.len(), 18);
    assert_eq!(r[0], format!("/pf86{s}World of Warcraft{s}_retail_{s}Logs"));
    assert_eq!(r[1], format!("/pf{s}World of Warcraft{s}_retail_{s}Logs"));
    let retail = format!("World of Warcraft{s}_retail_{s}Logs");
    assert!(r[2].starts_with("C:\\") && r[2].ends_with(&retail) && !r[2].contains("Games"));
    assert!(r[3].starts_with("C:\\") && r[3].ends_with(&retail) && r[3].contains("Games"));
    assert!(r[4].starts_with("E:\\") && r[4].ends_with(&retail) && !r[4].contains("Games"));
    assert!(r[5].starts_with("E:\\") && r[5].ends_with(&retail) && r[5].contains("Games"));
    assert_eq!(r[6], format!("/pf86{s}World of Warcraft{s}_classic_{s}Logs"));
    assert_eq!(r[12], format!("/pf86{s}World of Warcraft{s}_classic_era_{s}Logs"));
    let era = format!("World of Warcraft{s}_classic_era_{s}Logs");
    assert!(r[17].starts_with("E:\\") && r[17].ends_with(&era) && r[17].contains("Games"));
}

#[test]
fn no_install_places_no_log_dirs() {
    assert!(log_dir_candidates(&vec![], &vec![]).is_empty());
    assert_eq!(log_dir_candidates(&vec![], &vec!['D']).len(), 6);
}
