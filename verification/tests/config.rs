use wow_recorder::config::{default_output_dir, Config};

fn config_with(quality: u32, mode: &str) -> Config {
    let mut c = Config::defaults("out".to_string());
    c.quality = quality;
    c.output_mode = mode.to_string();
    c
}

#[test]
fn defaults_are_the_documented_ones() {
    let c = Config::defaults("/videos".to_string());
    assert_eq!(c.log_directory, "");
    assert_eq!(c.output_dir(), "/videos");
    assert_eq!(c.fps, 30);
    assert_eq!(c.quality, 70);
    assert_eq!(c.output_mode, "1080p");
    assert_eq!(c.audio_mode, "desktop");
    assert_eq!(c.stop_delay_secs, 5);
}

#[test]
fn cqp_maps_quality() {
    assert_eq!(config_with(0, "raw").cqp(), 32);
    assert_eq!(config_with(100, "raw").cqp(), 16);
    assert_eq!(config_with(250, "raw").cqp(), 16);
    assert_eq!(config_with(70, "raw").cqp(), 21);
    assert_eq!(config_with(50, "raw").cqp(), 24);
}

#[test]
fn cqp_never_rises_with_quality() {
    let mut last = 33;
    for q in 0..=120 {
        let v = config_with(q, "raw").cqp();
        assert!(v <= last);
        assert!((16..=32).contains(&v));
        last = v;
    }
}

#[test]
fn output_resolution_downscales() {
    assert_eq!(config_with(70, "1080p").output_resolution((2560, 1440)), (1920, 1080));
    assert_eq!(config_with(70, "720p").output_resolution((3440, 1440)), (1720, 720));
    assert_eq!(config_with(70, "1440p").output_resolution((3840, 2160)), (2560, 1440));
    // 1366 * 720 / 768 = 1280.6 -> 1281 -> even 1280
    assert_eq!(config_with(70, "720p").output_resolution((1366, 768)), (1280, 720));
}

#[test]
fn output_resolution_never_upscales() {
    assert_eq!(config_with(70, "1440p").output_resolution((1920, 1080)), (1920, 1080));
    assert_eq!(config_with(70, "1080p").output_resolution((1920, 1080)), (1920, 1080));
    assert_eq!(config_with(70, "raw").output_resolution((5000, 3000)), (5000, 3000));
    assert_eq!(config_with(70, "bogus").output_resolution((5000, 3000)), (5000, 3000));
}

#[test]
fn output_resolution_keeps_inputs_too_narrow_to_scale() {
    assert_eq!(config_with(70, "720p").output_resolution((1, 2000)), (1, 2000));
    assert_eq!(config_with(70, "1080p").output_resolution((0, 2000)), (0, 2000));
    // 3 * 1080 / 2000 = 1.62 -> 2, even, kept
    assert_eq!(config_with(70, "1080p").output_resolution((3, 2000)), (2, 1080));
}

#[test]
fn output_resolution_width_floor_is_two() {
    // 2 * 1080 / 2000 = 1.08 -> 1 -> 0 after evening; a width of 2 is kept
    assert_eq!(config_with(70, "1080p").output_resolution((2, 2000)), (2, 1080));
    assert_eq!(config_with(70, "720p").output_resolution((3, 4000)), (2, 720));
}

#[test]
fn default_output_dir_prefers_videos_then_home() {
    let sep = std::path::MAIN_SEPARATOR;
    assert_eq!(
        default_output_dir(Some("/v".into()), Some("/h".into())),
        format!("/v{sep}WoW Recorder")
    );
    assert_eq!(default_output_dir(None, Some("/h".into())), format!("/h{sep}WoW Recorder"));
    assert_eq!(default_output_dir(None, None), format!(".{sep}WoW Recorder"));
    assert_eq!(default_output_dir(Some("/v/".into()), None), "/v/WoW Recorder");
}
