use autorec::vu_meter::{process_audio_chunk, ChannelLevel, ChannelMetrics, SampleFormat, VUMeter};

fn create_test_meter() -> VUMeter {
    VUMeter::new(48000, 2, SampleFormat::S32, 100_000, 9000, 0, -6000, 10_000_000)
}

#[test]
fn test_sample_format_from_str() {
    assert!(matches!(SampleFormat::from_str("s16"), Ok(SampleFormat::S16)));
    assert!(matches!(SampleFormat::from_str("s16le"), Ok(SampleFormat::S16)));
    assert!(matches!(SampleFormat::from_str("s32"), Ok(SampleFormat::S32)));
    assert!(matches!(SampleFormat::from_str("s32le"), Ok(SampleFormat::S32)));
    assert!(SampleFormat::from_str("invalid").is_err());
}

#[test]
fn test_sample_format_properties() {
    assert_eq!(SampleFormat::S16.bytes_per_sample(), 2);
    assert_eq!(SampleFormat::S32.bytes_per_sample(), 4);
    assert_eq!(SampleFormat::S16.max_value(), 32768);
    assert_eq!(SampleFormat::S32.max_value(), 2147483648);
    assert_eq!(SampleFormat::S16.as_str(), "s16");
    assert_eq!(SampleFormat::S32.as_str(), "s32");
}

#[test]
fn test_vu_meter_creation() {
    let meter = create_test_meter();
    assert_eq!(meter.sample_rate, 48000);
    assert_eq!(meter.channels, 2);
    assert_eq!(meter.update_interval_us, 100_000);
    assert_eq!(meter.db_range, 9000);
    assert_eq!(meter.max_db, 0);
    assert_eq!(meter.min_db, -9000);
}

#[test]
fn vu_meter_test_detect_clipping() {
    let meter = create_test_meter();
    let normal = vec![100000i32; 100];
    assert!(!meter.detect_clipping(&normal));
    let clipping_threshold = 2145336164i32;
    let clipped = vec![clipping_threshold + 1000; 100];
    assert!(meter.detect_clipping(&clipped));
}

#[test]
fn test_update_history() {
    let mut meter = create_test_meter();
    let (max_db, max_peak_db, is_on, has_clipped) = meter.update_history(0, -3000, -2500, false);
    assert_eq!(max_db, -3000);
    assert_eq!(max_peak_db, -2500);
    assert!(is_on);
    assert!(!has_clipped);

    let (_, _, _, has_clipped) = meter.update_history(0, -2000, -1500, true);
    assert!(has_clipped);
}

#[test]
fn test_is_any_channel_on() {
    let mut meter = create_test_meter();
    assert!(!meter.is_any_channel_on());
    meter.update_history(0, -3000, -2500, false);
    assert!(meter.is_any_channel_on());
}

#[test]
fn test_channel_metrics() {
    let metrics = ChannelMetrics {
        db: -2000,
        peak_db: -1500,
        max_db: -1800,
        max_peak_db: -1200,
        is_on: true,
        has_clipped: false,
    };
    assert_eq!(metrics.db, -2000);
    assert!(metrics.is_on);
    assert!(!metrics.has_clipped);
}

#[test]
fn unsupported_format_message_quotes_the_name() {
    assert_eq!(SampleFormat::from_str("u8"), Err("Unsupported format: u8".to_string()));
    assert_eq!(SampleFormat::from_str("S16"), Err("Unsupported format: S16".to_string()));
}

#[test]
fn meter_sizes_follow_the_intervals() {
    let meter = VUMeter::new(44100, 1, SampleFormat::S16, 200_000, 9000, 0, -6000, 10_000_000);
    assert_eq!(meter.frames_per_update, 8820);
    assert_eq!(meter.history_size, 50);
    let meter = VUMeter::new(48000, 2, SampleFormat::S16, 300_000, 6000, 300, -6000, 1_000_000);
    assert_eq!(meter.frames_per_update, 14400);
    assert_eq!(meter.history_size, 3);
    assert_eq!(meter.min_db, -5700);
}

#[test]
fn channel_goes_off_only_after_a_full_window_of_silence() {
    // A window of three updates.
    let mut meter = VUMeter::new(48000, 1, SampleFormat::S16, 1_000_000, 9000, 0, -6000, 3_000_000);
    assert!(meter.update_history(0, -2000, -1000, false).2);
    assert!(meter.update_history(0, -7000, -7000, false).2);
    assert!(meter.update_history(0, -7000, -7000, false).2);
    let (max_db, _, is_on, _) = meter.update_history(0, -7000, -7000, false);
    assert!(!is_on);
    assert_eq!(max_db, -7000);
    assert_eq!(meter.db_history[0], vec![-7000, -7000, -7000]);
    // Exactly at the threshold is not above it.
    assert!(!meter.update_history(0, -6000, -7000, false).2);
    assert!(meter.update_history(0, -5999, -7000, false).2);
}

#[test]
fn unknown_channel_changes_nothing() {
    let mut meter = create_test_meter();
    assert_eq!(meter.update_history(2, -1000, -500, true), (-9000, -9000, false, false));
    assert!(meter.db_history[0].is_empty() && meter.db_history[1].is_empty());
    assert!(!meter.is_any_channel_on());
}

#[test]
fn clipping_is_remembered_for_the_window() {
    let mut meter = VUMeter::new(48000, 1, SampleFormat::S16, 1_000_000, 9000, 0, -6000, 2_000_000);
    assert!(meter.update_history(0, -1000, -10, true).3);
    assert!(meter.update_history(0, -1000, -900, false).3);
    assert!(!meter.update_history(0, -1000, -900, false).3);
}

#[test]
fn chunk_metrics_per_channel() {
    let mut meter = create_test_meter();
    let levels = vec![
        ChannelLevel { db: -3000, peak_db: -2000, is_clipping: false },
        ChannelLevel { db: -8000, peak_db: -7000, is_clipping: true },
        ChannelLevel { db: -100, peak_db: -50, is_clipping: true },
    ];
    let metrics = process_audio_chunk(&mut meter, &levels);
    assert_eq!(metrics.len(), 3);
    assert_eq!(
        metrics[0],
        ChannelMetrics {
            db: -3000,
            peak_db: -2000,
            max_db: -3000,
            max_peak_db: -2000,
            is_on: true,
            has_clipped: false
        }
    );
    assert_eq!(
        metrics[1],
        ChannelMetrics {
            db: -8000,
            peak_db: -7000,
            max_db: -8000,
            max_peak_db: -7000,
            is_on: false,
            has_clipped: true
        }
    );
    assert_eq!(
        metrics[2],
        ChannelMetrics {
            db: -100,
            peak_db: -50,
            max_db: -9000,
            max_peak_db: -9000,
            is_on: false,
            has_clipped: false
        }
    );
    assert!(meter.is_any_channel_on());
}

/// The level, in hundredths of a decibel, of an amplitude against the full
/// scale of 32 bits.
fn level_of(amplitude: f64) -> i16 {
    (2000.0 * (amplitude / 2147483648.0).log10()).round() as i16
}

#[test]
fn test_calculate_db() {
    let meter = create_test_meter();

    let silence = vec![0i32; 100];
    let db = meter.calculate_db(&silence, level_of(1.0));
    assert_eq!(db, meter.min_db);

    let max_signal = vec![i32::MAX / 2; 100];
    let db = meter.calculate_db(&max_signal, level_of((i32::MAX / 2) as f64));
    assert!(db > -1000);

    let medium_signal = vec![1000000i32; 100];
    let db = meter.calculate_db(&medium_signal, level_of(1000000.0));
    assert!(db > meter.min_db && db < meter.max_db);
}

#[test]
fn vu_meter_test_calculate_peak_db() {
    let meter = create_test_meter();

    let signal = vec![0, 100000, -200000, 50000];
    let peak_db = meter.calculate_peak_db(&signal, level_of(200000.0));

    assert!(peak_db > meter.min_db);
    assert!(peak_db < meter.max_db);
}
