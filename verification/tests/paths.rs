use wow_recorder::paths::{is_file_name, sidecar_path};

#[test]
fn file_names_are_single_components() {
    assert!(is_file_name("a.mp4"));
    assert!(is_file_name("..."));
    assert!(is_file_name("2024-01-02_03-04-05_Zone_+12.mp4"));
    assert!(!is_file_name(""));
    assert!(!is_file_name("."));
    assert!(!is_file_name(".."));
    assert!(!is_file_name("a/b"));
    assert!(!is_file_name("a\\b"));
    assert!(!is_file_name("C:x"));
}

#[test]
fn sidecar_replaces_the_mp4_ending() {
    assert_eq!(sidecar_path("x/y.mp4"), "x/y.json");
    assert_eq!(sidecar_path("x/y"), "x/y.json");
    assert_eq!(sidecar_path("mp4"), "mp4.json");
    assert_eq!(sidecar_path(".mp4"), ".json");
    assert_eq!(sidecar_path("a.MP4"), "a.MP4.json");
}
