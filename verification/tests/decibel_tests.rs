use autorec::decibel::{
    calculate_peak, calculate_peak_db, calculate_power, calculate_rms_db, clamp_level,
    clipping_threshold, detect_clipping,
};

#[test]
fn decibel_test_detect_clipping() {
    let threshold = 30000;

    let normal = vec![1000, 2000, 3000, 4000];
    assert!(!detect_clipping(&normal, threshold));

    let clipped_pos = vec![1000, 31000, 3000, 4000];
    assert!(detect_clipping(&clipped_pos, threshold));

    let clipped_neg = vec![1000, -31000, 3000, 4000];
    assert!(detect_clipping(&clipped_neg, threshold));

    let at_threshold = vec![1000, 30000, 3000, 4000];
    assert!(detect_clipping(&at_threshold, threshold));

    let below_threshold = vec![1000, 29999, 3000, 4000];
    assert!(!detect_clipping(&below_threshold, threshold));
}

#[test]
fn test_calculate_peak() {
    let silence = vec![0i32; 100];
    assert_eq!(calculate_peak(&silence), 0);

    let signal = vec![100, 200, 150, 50];
    assert_eq!(calculate_peak(&signal), 200);

    let signal = vec![100, -300, 150, 50];
    assert_eq!(calculate_peak(&signal), 300);

    assert_eq!(calculate_peak(&Vec::new()), 0);
}

#[test]
fn test_clipping_threshold() {
    let threshold = clipping_threshold(32768, 999);
    assert_eq!(threshold, 32735);

    let threshold = clipping_threshold(2147483648, 999);
    assert!((threshold - 2145335864).abs() < 1000);

    let threshold = clipping_threshold(32768, 950);
    assert_eq!(threshold, 31129);
}

#[test]
fn test_calculate_rms_db() {
    let min_db = -9000;
    let max_db = 0;

    let silence = vec![0i32; 100];
    assert_eq!(calculate_rms_db(&silence, -1234, min_db, max_db), min_db);

    let signal = vec![16384i32; 100];
    assert_eq!(calculate_rms_db(&signal, -602, min_db, max_db), -602);

    let loud = vec![i32::MAX / 2; 100];
    assert!(calculate_rms_db(&loud, 9000, min_db, max_db) <= max_db);
}

#[test]
fn decibel_test_calculate_peak_db() {
    let min_db = -9000;
    let max_db = 0;

    let silence = vec![0i32; 100];
    assert_eq!(calculate_peak_db(&silence, -100, min_db, max_db), min_db);

    let signal = vec![100, 200, 16384, 100];
    assert_eq!(calculate_peak_db(&signal, -602, min_db, max_db), -602);
}

#[test]
fn test_empty_input() {
    let empty: Vec<i32> = vec![];
    assert_eq!(calculate_power(&empty), 0);
    assert_eq!(calculate_peak(&empty), 0);
    assert_eq!(calculate_rms_db(&empty, -100, -9000, 0), -9000);
    assert_eq!(calculate_peak_db(&empty, -100, -9000, 0), -9000);
    assert!(!detect_clipping(&empty, 30000));
}

#[test]
fn silence_gives_the_configured_floor() {
    for floor in [-8000i16, -9000, -6000] {
        assert_eq!(calculate_rms_db(&vec![0; 4410], 0, floor, 0), floor);
        assert_eq!(calculate_peak_db(&vec![0; 4410], 0, floor, 0), floor);
    }
}

#[test]
fn power_and_peak_of_extreme_samples() {
    let block = vec![i32::MIN, i32::MAX, -1, 3];
    assert_eq!(calculate_peak(&block), 2147483648);
    let expected = (1u128 << 62) + ((1u128 << 31) - 1) * ((1u128 << 31) - 1) + 1 + 9;
    assert_eq!(calculate_power(&block), expected);
    assert!(detect_clipping(&block, i32::MAX));
    assert!(detect_clipping(&vec![i32::MIN], i32::MAX));
}

#[test]
fn quiet_block_below_one_step_is_floored() {
    // One sample of magnitude 1 among four: the mean square is a quarter.
    assert_eq!(calculate_rms_db(&vec![1, 0, 0, 0], -500, -9000, 0), -9000);
    assert_eq!(calculate_rms_db(&vec![1, 1, 1, 1], -500, -9000, 0), -500);
    assert_eq!(calculate_peak_db(&vec![1, 0, 0, 0], -500, -9000, 0), -500);
}

#[test]
fn clamp_holds_levels_between_floor_and_ceiling() {
    assert_eq!(clamp_level(-9500, -9000, 0), -9000);
    assert_eq!(clamp_level(-100, -9000, 0), -100);
    assert_eq!(clamp_level(300, -9000, 0), 0);
    assert_eq!(clamp_level(-100, 0, -9000), -9000);
    assert_eq!(clipping_threshold(u32::MAX, 1000), i32::MAX);
}
