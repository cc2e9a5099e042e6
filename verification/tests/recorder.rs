use wow_recorder::config::Config;
use wow_recorder::recorder::{make_recorder, Backend, Error, NoopRecorder, ObsRecorder, Recorder};

fn cfg() -> Config {
    Config::defaults("out".to_string())
}

#[test]
fn noop_start_then_stop() {
    let mut r = NoopRecorder::default();
    assert!(r.start("a.mp4", &cfg()).is_ok());
    assert!(r.stop().is_ok());
}

#[test]
fn noop_refuses_second_start() {
    let mut r = NoopRecorder::default();
    r.start("a.mp4", &cfg()).unwrap();
    assert!(matches!(r.start("b.mp4", &cfg()), Err(Error::Busy)));
    // still running: stopping works once
    assert!(r.stop().is_ok());
    assert!(matches!(r.stop(), Err(Error::Idle)));
}

#[test]
fn noop_refuses_stop_when_idle() {
    let mut r = NoopRecorder::default();
    assert!(matches!(r.stop(), Err(Error::Idle)));
}

#[test]
fn obs_backend_is_unavailable() {
    match ObsRecorder::new() {
        Err(Error::Backend(m)) => assert_eq!(m, "OBS backend not yet implemented"),
        _ => panic!("expected backend error"),
    }
    let mut obs = ObsRecorder {};
    assert!(matches!(obs.start("a.mp4", &cfg()), Err(Error::Backend(_))));
    assert!(matches!(obs.stop(), Err(Error::Backend(_))));
    assert_eq!(obs.backend_name(), "obs");
}

#[test]
fn make_recorder_falls_back_to_noop() {
    let mut r = make_recorder();
    assert!(matches!(r, Backend::Noop(_)));
    assert_eq!(r.backend_name(), "noop");
    assert!(r.start("a.mp4", &cfg()).is_ok());
    assert!(matches!(r.start("b.mp4", &cfg()), Err(Error::Busy)));
    assert!(r.stop().is_ok());
    assert!(matches!(r.stop(), Err(Error::Idle)));
}

#[test]
fn error_messages() {
    assert_eq!(Error::Busy.message(), "recorder is already running");
    assert_eq!(Error::Idle.message(), "no recording in progress");
    assert_eq!(
        Error::Backend("boom".to_string()).message(),
        "capture backend error: boom"
    );
}

#[test]
fn obs_backend_refuses_through_the_choice() {
    let mut b = Backend::Obs(ObsRecorder {});
    assert_eq!(b.backend_name(), "obs");
    assert!(matches!(b.start("a.mp4", &cfg()), Err(Error::Backend(_))));
    assert!(matches!(b.stop(), Err(Error::Backend(_))));
}

#[test]
fn noop_remembers_its_target_while_running() {
    let mut r = NoopRecorder::default();
    assert_eq!(r.target(), None);
    r.start("a.mp4", &cfg()).unwrap();
    assert_eq!(r.target(), Some("a.mp4".to_string()));
    assert!(r.start("b.mp4", &cfg()).is_err());
    assert_eq!(r.target(), Some("a.mp4".to_string()));
    r.stop().unwrap();
    assert_eq!(r.target(), None);
    let mut b = make_recorder();
    b.start("c.mp4", &cfg()).unwrap();
    assert_eq!(b.target(), Some("c.mp4".to_string()));
    assert_eq!(Backend::Obs(ObsRecorder {}).target(), None);
}
