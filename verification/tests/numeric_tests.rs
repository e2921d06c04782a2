use autorec::audio_analysis::{
    estimate_music_level, estimate_noise_floor, mean_level, smooth_rms,
};
use autorec::numeric::{isqrt, sort_levels, sort_scores};

#[test]
fn integer_square_roots() {
    assert_eq!(isqrt(0), 0);
    assert_eq!(isqrt(1), 1);
    assert_eq!(isqrt(3), 1);
    assert_eq!(isqrt(4), 2);
    assert_eq!(isqrt(24), 4);
    assert_eq!(isqrt(25), 5);
    assert_eq!(isqrt(2_000_000), 1414);
    assert_eq!(isqrt(u64::MAX), 4294967295);
    assert_eq!(isqrt(4294967295u64 * 4294967295u64), 4294967295);
    assert_eq!(isqrt(4294967295u64 * 4294967295u64 - 1), 4294967294);
}

#[test]
fn sorts_are_ascending_and_keep_duplicates() {
    assert_eq!(sort_levels(&vec![3, -2, 3, i16::MIN, 0, i16::MAX]), vec![i16::MIN, -2, 0, 3, 3, i16::MAX]);
    assert_eq!(sort_levels(&Vec::new()), Vec::<i16>::new());
    assert_eq!(sort_scores(&vec![5, -1, 5, 0]), vec![-1, 0, 5, 5]);
}

#[test]
fn means_round_down() {
    let v = vec![-3, -4, 10, 11];
    assert_eq!(mean_level(&v, 0, 2), -4); // -3.5 rounds down
    assert_eq!(mean_level(&v, 2, 4), 10); // 10.5 rounds down
    assert_eq!(mean_level(&v, 0, 4), 3); // 3.5 rounds down
    assert_eq!(mean_level(&v, 1, 2), -4);
    assert_eq!(mean_level(&vec![i16::MIN; 1000], 0, 1000), i16::MIN);
    assert_eq!(mean_level(&vec![i16::MAX; 1000], 0, 1000), i16::MAX);
}

#[test]
fn level_estimates_use_percentile_bands() {
    // 100 levels 0, 10, .., 990: noise floor is the mean of the sorted
    // levels 5..=10, music level that of 60..=80.
    let curve: Vec<i16> = (0..100).rev().map(|k| k * 10).collect();
    assert_eq!(estimate_noise_floor(&curve), 75);
    assert_eq!(estimate_music_level(&curve), 700);
    // A single level is every estimate.
    assert_eq!(estimate_noise_floor(&vec![-4200]), -4200);
    assert_eq!(estimate_music_level(&vec![-4200]), -4200);
    // Nine levels: both bounds of the noise band are 0, the band is the
    // lowest level; the music band is sorted[5..=7].
    let nine = vec![-100, -900, -300, -500, -700, -200, -400, -600, -800];
    assert_eq!(estimate_noise_floor(&nine), -900);
    assert_eq!(estimate_music_level(&nine), -300);
}

#[test]
fn smoothing_averages_a_centred_window() {
    let v = vec![10u32, 20, 30, 40, 50];
    assert_eq!(smooth_rms(&v, 3), vec![15, 20, 30, 40, 45]);
    assert_eq!(smooth_rms(&v, 1), v);
    assert_eq!(smooth_rms(&v, 0), v);
    assert_eq!(smooth_rms(&v, 100), vec![30, 30, 30, 30, 30]);
    assert_eq!(smooth_rms(&v, 4), vec![20, 25, 30, 35, 40]);
    assert_eq!(smooth_rms(&vec![u32::MAX; 4], usize::MAX), vec![u32::MAX; 4]);
    assert!(smooth_rms(&Vec::new(), 3).is_empty());
    assert_eq!(smooth_rms(&vec![1, 2], 3), vec![1, 1]);
}
