use wow_recorder::combatlog::{ChallengeEnd, ChallengeStart, LogEvent};
use wow_recorder::config::Config;
use wow_recorder::recorder::{make_recorder, Backend, Error, ObsRecorder, Recorder};
use wow_recorder::paths::is_file_name;
use wow_recorder::session::{sanitize, Controller, Step};

fn tmp_config() -> Config {
    let mut c = Config::defaults("out-dir".to_string());
    c.stop_delay_secs = 0;
    c
}

fn start_event() -> ChallengeStart {
    ChallengeStart {
        zone: "Ara-Kara, City of Echoes".into(),
        instance_id: Some(2648),
        challenge_id: Some(542),
        keystone_level: Some(12),
        affixes: vec![10, 9],
        log_timestamp: "9/14 20:01:05.123".into(),
    }
}

fn end_event() -> ChallengeEnd {
    ChallengeEnd {
        instance_id: Some(2648),
        success: true,
        keystone_level: Some(12),
        duration_ms: Some(1_800_000),
        log_timestamp: "9/14 20:31:05.123".into(),
    }
}

#[test]
fn start_then_end_writes_metadata() {
    let mut ctrl = Controller::new(make_recorder(), tmp_config());
    assert!(!ctrl.is_recording());
    let start = match ctrl.handle(LogEvent::ChallengeStart(start_event())) {
        Step::Begin(s) => s,
        _ => panic!("expected begin"),
    };
    let plan = ctrl.plan_start(&start, "2024-09-14_20-01-05");
    assert_eq!(plan.stem, "2024-09-14_20-01-05_Ara-Kara-City-of-Echoes_+12");
    assert_eq!(plan.video_file(), "2024-09-14_20-01-05_Ara-Kara-City-of-Echoes_+12.mp4");
    assert_eq!(plan.output_directory, "out-dir");
    assert!(ctrl.begin(start, "2024-09-14T20:01:05+00:00".into(), plan).is_ok());
    assert!(ctrl.is_recording());
    let sep = std::path::MAIN_SEPARATOR;
    let video = format!("out-dir{sep}2024-09-14_20-01-05_Ara-Kara-City-of-Echoes_+12.mp4");
    assert_eq!(ctrl.video_path(), Some(video.clone()));
    assert_eq!(ctrl.recorder().target(), Some(video));
    let end = match ctrl.handle(LogEvent::ChallengeEnd(end_event())) {
        Step::Finish(e, delay) => {
            assert_eq!(delay, 0);
            e
        }
        _ => panic!("expected finish"),
    };
    let done = ctrl.finish(end, || "2024-09-14T20:31:10+00:00".to_string()).expect("metadata");
    assert!(done.stopped.is_ok());
    assert!(!ctrl.is_recording());
    let m = done.metadata;
    assert_eq!(
        done.metadata_path,
        format!("out-dir{sep}2024-09-14_20-01-05_Ara-Kara-City-of-Echoes_+12.json")
    );
    assert_eq!(ctrl.recorder().target(), None);
    assert_eq!(ctrl.video_path(), None);
    assert_eq!(m.zone, "Ara-Kara, City of Echoes");
    assert_eq!(m.keystone_level, Some(12));
    assert_eq!(m.success, Some(true));
    assert_eq!(m.start_log_timestamp, "9/14 20:01:05.123");
    assert_eq!(m.end_log_timestamp.as_deref(), Some("9/14 20:31:05.123"));
    assert_eq!(m.content_type, "mythicplus");
    assert_eq!(m.affixes, vec![10, 9]);
    assert_eq!(m.instance_id, Some(2648));
    assert_eq!(m.challenge_id, Some(542));
    assert_eq!(m.duration_ms, Some(1_800_000));
    assert_eq!(m.started_at, "2024-09-14T20:01:05+00:00");
    assert_eq!(m.ended_at.as_deref(), Some("2024-09-14T20:31:10+00:00"));
    assert_eq!(m.video_file, "2024-09-14_20-01-05_Ara-Kara-City-of-Echoes_+12.mp4");
}

#[test]
fn end_without_start_is_ignored() {
    let mut ctrl = Controller::new(make_recorder(), tmp_config());
    let end = ChallengeEnd {
        instance_id: Some(1),
        success: false,
        keystone_level: Some(2),
        duration_ms: None,
        log_timestamp: "9/14 20:31:05.123".into(),
    };
    assert!(matches!(ctrl.handle(LogEvent::ChallengeEnd(end.clone())), Step::EndIgnored));
    assert!(ctrl.finish(end, || "now".to_string()).is_none());
    assert!(!ctrl.is_recording());
}

#[test]
fn start_while_recording_is_ignored() {
    let mut ctrl = Controller::new(make_recorder(), tmp_config());
    let plan = ctrl.plan_start(&start_event(), "t");
    ctrl.begin(start_event(), "t".into(), plan).unwrap();
    assert!(matches!(
        ctrl.handle(LogEvent::ChallengeStart(start_event())),
        Step::StartIgnored
    ));
    assert!(ctrl.is_recording());
}

#[test]
fn end_fills_level_and_instance_the_start_lacked() {
    let mut ctrl = Controller::new(make_recorder(), tmp_config());
    let mut s = start_event();
    s.keystone_level = None;
    s.instance_id = None;
    let plan = ctrl.plan_start(&s, "t");
    assert_eq!(plan.stem, "t_Ara-Kara-City-of-Echoes_+0");
    ctrl.begin(s, "t".into(), plan).unwrap();
    let mut e = end_event();
    e.keystone_level = Some(15);
    e.instance_id = Some(7);
    let m = ctrl.finish(e, || "u".to_string()).unwrap().metadata;
    assert_eq!(m.keystone_level, Some(15));
    assert_eq!(m.instance_id, Some(7));
}

#[test]
fn metadata_goes_next_to_the_video_after_a_settings_change() {
    let mut ctrl = Controller::new(make_recorder(), tmp_config());
    let plan = ctrl.plan_start(&start_event(), "t");
    ctrl.begin(start_event(), "t".into(), plan).unwrap();
    let mut c = tmp_config();
    c.output_directory = "elsewhere".into();
    c.stop_delay_secs = 9;
    ctrl.set_config(c);
    assert!(ctrl.is_recording());
    assert!(matches!(ctrl.handle(LogEvent::ChallengeEnd(end_event())), Step::Finish(_, 9)));
    let done = ctrl.finish(end_event(), || "u".to_string()).unwrap();
    let sep = std::path::MAIN_SEPARATOR;
    assert_eq!(done.metadata_path, format!("out-dir{sep}t_Ara-Kara-City-of-Echoes_+12.json"));
    assert_eq!(done.metadata.video_file, "t_Ara-Kara-City-of-Echoes_+12.mp4");
}

#[test]
fn negative_level_in_stem() {
    let ctrl = Controller::new(make_recorder(), tmp_config());
    let mut s = start_event();
    s.keystone_level = Some(i64::MIN);
    assert_eq!(
        ctrl.plan_start(&s, "t").stem,
        "t_Ara-Kara-City-of-Echoes_+-9223372036854775808"
    );
}

#[test]
fn sanitize_makes_file_names() {
    assert_eq!(sanitize("Ara-Kara, City of Echoes"), "Ara-Kara-City-of-Echoes");
    assert_eq!(sanitize("  a<b>c:d\"e/f\\g|h?i*j  "), "a-b-c-d-e-f-g-h-i-j");
    assert_eq!(sanitize(""), "");
    assert_eq!(sanitize(" ,, "), "");
    assert_eq!(sanitize("The\tDawnbreaker\u{3000}x"), "The-Dawnbreaker-x");
}

#[test]
fn recording_only_while_the_backend_captures() {
    let mut ctrl = Controller::new(Backend::Obs(ObsRecorder {}), tmp_config());
    let plan = ctrl.plan_start(&start_event(), "t");
    assert!(matches!(
        ctrl.begin(start_event(), "t".into(), plan),
        Err(Error::Backend(_))
    ));
    assert!(!ctrl.is_recording());
    assert_eq!(ctrl.backend_name(), "obs");
}

#[test]
fn finish_stops_the_capture() {
    let mut ctrl = Controller::new(make_recorder(), tmp_config());
    let plan = ctrl.plan_start(&start_event(), "t");
    ctrl.begin(start_event(), "t".into(), plan).unwrap();
    let done = ctrl.finish(end_event(), || "u".to_string()).unwrap();
    assert!(done.stopped.is_ok());
    assert!(!ctrl.is_recording());
    // the backend is idle again: a new run starts
    let plan = ctrl.plan_start(&start_event(), "t2");
    assert!(ctrl.begin(start_event(), "t2".into(), plan).is_ok());
}

#[test]
fn a_busy_backend_refuses_the_run() {
    let mut busy = make_recorder();
    busy.start("x.mp4", &tmp_config()).unwrap();
    let mut ctrl = Controller::new(busy, tmp_config());
    let plan = ctrl.plan_start(&start_event(), "t");
    assert!(matches!(ctrl.begin(start_event(), "t".into(), plan), Err(Error::Busy)));
    assert!(!ctrl.is_recording());
}

#[test]
fn the_capture_goes_to_the_planned_file() {
    let mut c = tmp_config();
    c.output_directory = "videos/".into();
    let mut ctrl = Controller::new(make_recorder(), c);
    let plan = ctrl.plan_start(&start_event(), "2024-01-02_03-04-05");
    assert!(is_file_name(&plan.video_file()));
    ctrl.begin(start_event(), "t".into(), plan).unwrap();
    let path = "videos/2024-01-02_03-04-05_Ara-Kara-City-of-Echoes_+12.mp4".to_string();
    assert_eq!(ctrl.video_path(), Some(path.clone()));
    assert_eq!(ctrl.recorder().target(), Some(path));
    let done = ctrl.finish(end_event(), || "u".to_string()).unwrap();
    assert_eq!(done.metadata_path, "videos/2024-01-02_03-04-05_Ara-Kara-City-of-Echoes_+12.json");
    assert_eq!(done.metadata.video_file, "2024-01-02_03-04-05_Ara-Kara-City-of-Echoes_+12.mp4");
}

#[test]
fn a_refused_start_leaves_the_backend_alone() {
    let mut busy = make_recorder();
    busy.start("first.mp4", &tmp_config()).unwrap();
    let mut ctrl = Controller::new(busy, tmp_config());
    let plan = ctrl.plan_start(&start_event(), "t");
    assert!(ctrl.begin(start_event(), "t".into(), plan).is_err());
    assert_eq!(ctrl.recorder().target(), Some("first.mp4".to_string()));
    assert_eq!(ctrl.video_path(), None);
}
