use autorec::config::Config;
use autorec::detection_strategies::{AbsoluteThresholdDetector, PauseDetectionStrategy, PauseEvent};
use autorec::pause_detector::{higher_threshold, is_too_sensitive, longer_pause};

#[test]
fn layers_of_settings() {
    let mut effective = Config::defaults();
    assert_eq!(effective.rate, Some(96000));
    assert_eq!(effective.min_length_us, Some(600_000_000));
    let mut saved = Config::new();
    saved.rate = Some(48000);
    saved.source = Some("alsa:hw:1,0".to_string());
    saved.off_threshold = Some(-5000);
    let mut command_line = Config::new();
    command_line.rate = Some(44100);
    command_line.no_vumeter = Some(true);
    effective.merge(&saved);
    effective.merge(&command_line);
    assert_eq!(effective.rate, Some(44100));
    assert_eq!(effective.source, Some("alsa:hw:1,0".to_string()));
    assert_eq!(effective.off_threshold, Some(-5000));
    assert_eq!(effective.no_vumeter, Some(true));
    assert_eq!(effective.channels, Some(2));
    assert_eq!(effective.format, Some("s32".to_string()));
    assert_eq!(effective.interval_us, Some(200_000));
    assert_eq!(effective.db_range, Some(9000));
    assert_eq!(effective.max_db, Some(0));
    assert_eq!(effective.silence_duration_us, Some(10_000_000));
    assert_eq!(effective.no_keyboard, Some(false));
    // An empty layer changes nothing.
    let before = effective.clone();
    effective.merge(&Config::new());
    assert_eq!(format!("{:?}", effective), format!("{:?}", before));
    assert_eq!(Config::get_config_path("/home/me"), "/home/me/.state/autorec/defaults.toml");
}

#[test]
fn pause_between_songs() {
    let mut detector = AbsoluteThresholdDetector::new(-5000, 1500, 0);
    assert_eq!(detector.feed(-2000, 0), None);
    assert_eq!(detector.feed(-6000, 1000), None);
    assert!(detector.in_pause());
    assert_eq!(detector.feed(-6000, 2000), None);
    // The pause lasted 1499 ms: too short.
    assert_eq!(detector.feed(-2000, 2499), None);
    assert!(!detector.in_pause());
    assert_eq!(detector.song_count, 1);
    assert_eq!(detector.feed(-5001, 3000), None);
    // Exactly at the threshold is no pause; the pause lasted 1500 ms.
    assert_eq!(detector.feed(-5000, 4500), Some(PauseEvent::SongBoundary));
    assert_eq!((detector.song_count, detector.current_song_start), (2, 4500));
    assert_eq!(detector.feed_level(-2000, 5000), None);
    assert_eq!(detector.song_number(), 2);
    detector.reset(9000);
    assert_eq!((detector.song_number(), detector.current_song_start), (1, 9000));
    // A clock that goes back ends no pause.
    detector.feed(-9000, 9000);
    assert_eq!(detector.feed(-2000, 0), None);
}

#[test]
fn sensitivity() {
    assert!(!is_too_sensitive(&Vec::new()));
    assert!(!is_too_sensitive(&vec![1, 1]));
    assert!(is_too_sensitive(&vec![1, 1, 1]));
    // 359 999 ms in three songs: 119 whole seconds a song.
    assert!(is_too_sensitive(&vec![119_999, 120_000, 120_000]));
    assert!(!is_too_sensitive(&vec![120_000, 120_000, 120_000]));
    assert!(!is_too_sensitive(&vec![u64::MAX, u64::MAX, 0]));
    assert_eq!(longer_pause(800), 900);
    assert_eq!(longer_pause(1400), 1500);
    assert_eq!(longer_pause(1450), 1500);
    assert_eq!(longer_pause(u32::MAX), 1500);
    assert_eq!(higher_threshold(-5000), -4800);
    assert_eq!(higher_threshold(-3200), -3000);
    assert_eq!(higher_threshold(-3100), -3000);
    assert_eq!(higher_threshold(i16::MAX), -3000);
    assert_eq!(higher_threshold(i16::MIN), i16::MIN + 200);
}
