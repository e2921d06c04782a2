use autorec::audio_analysis::smooth_rms;
use autorec::boundary_finder::{
    analyze_recording, detect_groove_in, detect_groove_out, filter_by_depth, filter_by_proximity,
    filter_by_score_gap, find_candidates, find_gap_threshold, find_guided_boundaries,
    find_song_boundaries, first_index_at_or_after, region_durations, use_guided_detection,
};
use autorec::cuefile::Valley;
use autorec::musicbrainz::ExpectedTrack;

const HOP: u64 = 200_000;

fn valley(position_s: u64, depth: i16, score: i64) -> Valley {
    Valley {
        position_us: position_s * 1_000_000,
        depth,
        prominence: 1000,
        left_level: -2000,
        right_level: -2000,
        width_us: 0,
        score,
    }
}

fn positions(valleys: &[Valley]) -> Vec<u64> {
    valleys.iter().map(|v| v.position_us / 1_000_000).collect()
}

/// Smooths a curve of levels the way an application does: in the linear
/// domain, with the library's moving average.
fn smooth(levels: &[i16], window: usize) -> Vec<i16> {
    let linear: Vec<u32> = levels
        .iter()
        .map(|&l| (10f64.powf(l as f64 / 2000.0) * 1_000_000_000.0) as u32)
        .collect();
    smooth_rms(&linear, window)
        .iter()
        .map(|&a| {
            if a == 0 {
                -8000
            } else {
                (2000.0 * (a as f64 / 1_000_000_000.0).log10()).round() as i16
            }
        })
        .collect()
}

/// A record side: lead-in, songs separated by gaps, lead-out. Levels wobble
/// a little, as groove noise does.
fn synthetic_side(lead_in: usize, song: usize, gap: usize, songs: usize, lead_out: usize) -> Vec<i16> {
    let mut state: u32 = 12345;
    let mut wobble = move || {
        state = state.wrapping_mul(1103515245).wrapping_add(12345);
        ((state >> 16) % 61) as i16 - 30
    };
    let mut levels = Vec::new();
    for _ in 0..lead_in {
        levels.push(-5000 + wobble());
    }
    for s in 0..songs {
        for _ in 0..song {
            levels.push(-2000 + wobble());
        }
        if s + 1 < songs {
            for _ in 0..gap {
                levels.push(-5500 + wobble());
            }
        }
    }
    for _ in 0..lead_out {
        levels.push(-5000 + wobble());
    }
    levels
}

#[test]
fn synthetic_vinyl_has_two_boundaries() {
    // 2 s of groove noise, three songs of 5 minutes with gaps of 2 s,
    // 10 s of groove noise.
    let levels = synthetic_side(10, 1500, 10, 3, 50);
    let short = smooth(&levels, 15);
    let long = smooth(&levels, 150);
    let file_duration = levels.len() as u64 * HOP;
    let analysis = analyze_recording(&short, &long, file_duration, HOP, 300, 30_000_000);
    let found = positions(&analysis.valleys);
    assert_eq!(found.len(), 2, "boundaries at {:?}", found);
    assert!((300..=305).contains(&found[0]), "first boundary at {}", found[0]);
    assert!((602..=607).contains(&found[1]), "second boundary at {}", found[1]);
    assert!(analysis.groove_in_us <= 3_000_000);
    assert!(analysis.groove_out_us >= 900_000_000 && analysis.groove_out_us <= file_duration);
    // The same recording gives the same boundaries again.
    let again = analyze_recording(&short, &long, file_duration, HOP, 300, 30_000_000);
    assert_eq!(again.valleys, analysis.valleys);
    assert_eq!((again.groove_in_us, again.groove_out_us), (analysis.groove_in_us, analysis.groove_out_us));
    // Boundaries are in order, apart, and inside the music.
    for pair in analysis.valleys.windows(2) {
        assert!(pair[0].position_us < pair[1].position_us);
        assert!(pair[1].position_us - pair[0].position_us >= 30_000_000);
    }
    for v in &analysis.valleys {
        assert!(analysis.groove_in_us < v.position_us && v.position_us < analysis.groove_out_us);
    }
}

#[test]
fn long_grooves_set_the_levels() {
    // With more than a tenth of the side in the groove, the noise floor is
    // that of the groove, and groove-in and groove-out are found.
    let levels = synthetic_side(100, 1500, 10, 2, 600);
    let short = smooth(&levels, 15);
    let long = smooth(&levels, 150);
    let analysis = analyze_recording(&short, &long, levels.len() as u64 * HOP, HOP, 300, 30_000_000);
    assert!((-5100..=-4900).contains(&analysis.noise_floor), "floor {}", analysis.noise_floor);
    assert!((-2100..=-1900).contains(&analysis.music_level), "music {}", analysis.music_level);
    assert!((17_000_000..=21_000_000).contains(&analysis.groove_in_us), "in {}", analysis.groove_in_us);
    let music_end = (100 + 1500 + 10 + 1500) as u64 * HOP;
    assert!(
        analysis.groove_out_us >= music_end && analysis.groove_out_us <= music_end + 5_000_000,
        "out {}",
        analysis.groove_out_us
    );
    // A gap of two seconds does not reach five decibels below the floor.
    assert!(analysis.valleys.is_empty());
}

#[test]
fn candidate_is_measured_at_a_strict_minimum() {
    // A dip at sample 100 of a flat curve, at a hop of one second.
    let hop = 1_000_000;
    let mut short = vec![-2000i16; 200];
    short[99] = -2500;
    short[100] = -3000;
    short[101] = -2500;
    let long = vec![-2000i16; 200];
    let found = find_candidates(&short, &long, 0, 200, hop, 300);
    assert_eq!(found.len(), 1);
    let v = found[0];
    assert_eq!(v.position_us, 100_000_000);
    assert_eq!(v.depth, -3000);
    assert_eq!(v.prominence, 1000);
    // Left context: samples 80..98, right context: samples 102..120.
    assert_eq!(v.left_level, -2000);
    assert_eq!(v.right_level, -2000);
    // Half prominence is at -2500: only the minimum lies below it.
    assert_eq!(v.width_us, 0);
    // Dip of 10 dB, prominence of 10 dB, no width: 1000 * 2000 * 1000.
    assert_eq!(v.score, 2_000_000_000);
    // A plateau has no strict minimum.
    short[101] = -3000;
    assert!(find_candidates(&short, &long, 0, 200, hop, 300).is_empty());
}

#[test]
fn candidate_width_and_score() {
    let hop = 1_000_000;
    let mut short = vec![-2000i16; 200];
    for k in 96..=104 {
        short[k] = -2600;
    }
    short[100] = -3000;
    let long = vec![-2000i16; 200];
    let found = find_candidates(&short, &long, 0, 200, hop, 300);
    assert_eq!(found.len(), 1);
    let v = found[0];
    // Below -2500 from sample 96 to sample 104: eight seconds.
    assert_eq!(v.width_us, 8_000_000);
    // Contexts: samples 80..98 and 102..120, two and three of them at -2600.
    assert_eq!(v.left_level, -2067);
    assert_eq!(v.right_level, -2100);
    let min_dip = (v.left_level as i64 - -3000).min(v.right_level as i64 - -3000);
    assert_eq!(v.score, min_dip * 2000 * (1000 + 2828));
}

#[test]
fn candidates_need_prominence_and_music_on_both_sides() {
    let hop = 1_000_000;
    let mut short = vec![-2000i16; 200];
    short[100] = -2250;
    let long = vec![-2000i16; 200];
    // Prominence of 2.5 dB: below the minimum of 3 dB.
    assert!(find_candidates(&short, &long, 0, 200, hop, 300).is_empty());
    assert_eq!(find_candidates(&short, &long, 0, 200, hop, 250).len(), 1);
    // A quiet passage on the right: the dip to the right is too small.
    let mut short = vec![-2000i16; 200];
    for k in 101..130 {
        short[k] = -2900;
    }
    short[100] = -3000;
    assert!(find_candidates(&short, &long, 0, 200, hop, 300).is_empty());
    // No candidates in a region of ten samples or fewer, nor outside it.
    let mut short = vec![-2000i16; 200];
    short[100] = -3000;
    assert_eq!(find_candidates(&short, &long, 0, 200, hop, 300).len(), 1);
    assert!(find_candidates(&short, &long, 95, 105, hop, 300).is_empty());
    assert!(find_candidates(&short, &long, 96, 200, hop, 300).is_empty());
    assert_eq!(find_candidates(&short, &long, 95, 200, hop, 300).len(), 1);
    assert!(find_candidates(&short, &long, 0, 105, hop, 300).is_empty());
    assert_eq!(find_candidates(&short, &long, 0, 106, hop, 300).len(), 1);
    assert!(find_candidates(&short, &long, 300, 200, hop, 300).is_empty());
    assert!(find_candidates(&Vec::new(), &Vec::new(), 0, 0, hop, 300).is_empty());
}

#[test]
fn proximity_filter_keeps_the_better_neighbour() {
    let valleys = vec![
        valley(100, -6000, 50),
        valley(120, -6000, 80),
        valley(149, -6000, 70),
        valley(150, -6000, 60),
        valley(300, -6000, 10),
    ];
    let kept = filter_by_proximity(&valleys, 30_000_000);
    // 120 wins; 100 and 149 are within 30 s of it; 150 is exactly 30 s
    // away and stays.
    assert_eq!(positions(&kept), vec![120, 150, 300]);
    for a in 0..kept.len() {
        for b in a + 1..kept.len() {
            assert!(kept[b].position_us - kept[a].position_us >= 30_000_000);
        }
    }
    // Of equal scores the earlier valley wins.
    let tie = vec![valley(100, -6000, 50), valley(110, -6000, 50)];
    assert_eq!(positions(&filter_by_proximity(&tie, 30_000_000)), vec![100]);
    // Without a minimum distance everything stays.
    assert_eq!(filter_by_proximity(&valleys, 0), valleys);
    assert!(filter_by_proximity(&Vec::new(), 30_000_000).is_empty());
}

#[test]
fn score_gap_of_exactly_one_and_a_half_does_not_cut() {
    assert_eq!(find_gap_threshold(&vec![100, 150]), None);
    assert_eq!(find_gap_threshold(&vec![100, 151]), Some(100));
    let kept = filter_by_score_gap(&vec![valley(1, -6000, 100), valley(2, -6000, 150)]);
    assert_eq!(positions(&kept), vec![1, 2]);
    let kept = filter_by_score_gap(&vec![valley(1, -6000, 100), valley(2, -6000, 151)]);
    assert_eq!(positions(&kept), vec![2]);
}

#[test]
fn score_gap_cuts_at_the_widest_ratio() {
    // Sorted scores 10, 30, 75, 200, 300: ratios 3, 2.5, 2.67, 1.5.
    let valleys = vec![
        valley(1, -6000, 200),
        valley(2, -6000, 10),
        valley(3, -6000, 300),
        valley(4, -6000, 30),
        valley(5, -6000, 75),
    ];
    assert_eq!(find_gap_threshold(&vec![10, 30, 75, 200, 300]), Some(10));
    assert_eq!(positions(&filter_by_score_gap(&valleys)), vec![1, 3, 4, 5]);
    // Of equal ratios the first counts; scores at or below 0 are passed over.
    assert_eq!(find_gap_threshold(&vec![10, 20, 40]), Some(10));
    assert_eq!(find_gap_threshold(&vec![-5, 0, 10, 12]), None);
    assert_eq!(find_gap_threshold(&vec![-5, 0, 10, 40]), Some(10));
    assert_eq!(find_gap_threshold(&vec![7]), None);
    assert_eq!(find_gap_threshold(&Vec::new()), None);
    assert_eq!(find_gap_threshold(&vec![i64::MAX / 2, i64::MAX]), Some(i64::MAX / 2));
    // Similar scores: nothing is cut.
    let similar = vec![valley(1, -6000, 100), valley(2, -6000, 120), valley(3, -6000, 140)];
    assert_eq!(filter_by_score_gap(&similar), similar);
}

#[test]
fn depth_filter_asks_for_five_decibels_below_the_floor() {
    let valleys = vec![
        valley(1, -5499, 1),
        valley(2, -5500, 1),
        valley(3, -5501, 1),
        valley(4, -7000, 1),
    ];
    assert_eq!(positions(&filter_by_depth(&valleys, -5000)), vec![2, 3, 4]);
    assert!(filter_by_depth(&valleys, i16::MIN).is_empty());
    assert_eq!(filter_by_depth(&valleys, i16::MAX), valleys);
}

#[test]
fn boundaries_pass_all_three_filters() {
    let hop = 1_000_000;
    let mut short = vec![-2000i16; 400];
    // A deep gap, a shallow one close to it, and a deep one further on.
    for (at, depth) in [(100usize, -4000i16), (110, -3500), (250, -4200)] {
        short[at - 1] = depth + 400;
        short[at] = depth;
        short[at + 1] = depth + 400;
    }
    let long = vec![-2000i16; 400];
    let candidates = find_candidates(&short, &long, 0, 400, hop, 300);
    assert_eq!(positions(&candidates), vec![100, 110, 250]);
    let found = find_song_boundaries(&short, &long, 0, 400, 300, 30_000_000, hop, -2000);
    assert_eq!(positions(&found), vec![100, 250]);
    // With a floor of -36 dB only the deepest gap reaches the margin.
    let found = find_song_boundaries(&short, &long, 0, 400, 300, 30_000_000, hop, -3600);
    assert_eq!(positions(&found), vec![250]);
    // The depth filter also holds for a single boundary.
    let found = find_song_boundaries(&short, &long, 200, 400, 300, 30_000_000, hop, -3800);
    assert!(found.is_empty());
}

#[test]
fn groove_in_is_where_the_rise_begins() {
    // Noise floor -50 dB, music -20 dB: the threshold is -35 dB.
    let hop = 1_000_000;
    let mut curve = vec![-5000i16; 10];
    curve.extend([-4500, -4000, -3000, -2500]);
    curve.extend(vec![-2000; 30]);
    // Sample 12 is the first above the threshold that stays there for two
    // seconds; the rise to it began at sample 9.
    assert_eq!(detect_groove_in(&curve, -5000, -2000, hop), 9_000_000);
    // The level never stays up: the start of the file.
    assert_eq!(detect_groove_in(&vec![-5000; 40], -5000, -2000, hop), 0);
    assert_eq!(detect_groove_in(&Vec::new(), -5000, -2000, hop), 0);
    // A spike of one sample does not count at a hop of one second.
    let mut spike = vec![-5000i16; 40];
    spike[5] = -1000;
    spike.extend(vec![-2000; 10]);
    assert_eq!(detect_groove_in(&spike, -5000, -2000, hop), 39_000_000);
    // Exactly at the threshold is not above it.
    assert_eq!(detect_groove_in(&vec![-3500; 40], -5000, -2000, hop), 0);
    assert_eq!(detect_groove_in(&vec![-3499; 40], -5000, -2000, hop), 0);
    let mut step = vec![-3500i16; 5];
    step.extend(vec![-3499; 35]);
    assert_eq!(detect_groove_in(&step, -5000, -2000, hop), 4_000_000);
}

#[test]
fn groove_out_is_the_first_lasting_drop() {
    let hop = 1_000_000;
    let mut curve = vec![-2000i16; 60];
    // A short drop within the music does not last ten seconds.
    for k in 20..25 {
        curve[k] = -5000;
    }
    curve.extend(vec![-5000; 30]);
    // The last window of six samples with more than two of them above the
    // threshold ends at sample 62; the drop is found from there.
    assert_eq!(detect_groove_out(&curve, -5000, -2000, 90_000_000, hop), 62_000_000);
    // Music to the end: the end of the file.
    assert_eq!(detect_groove_out(&vec![-2000; 60], -5000, -2000, 60_500_000, hop), 60_500_000);
    // No music at all: the end of the file.
    assert_eq!(detect_groove_out(&vec![-5000; 60], -5000, -2000, 60_500_000, hop), 60_500_000);
    assert_eq!(detect_groove_out(&Vec::new(), -5000, -2000, 7, hop), 7);
    // A drop shortly before the end lasts to the end.
    let mut curve = vec![-2000i16; 60];
    curve.extend(vec![-5000; 3]);
    assert_eq!(detect_groove_out(&curve, -5000, -2000, 63_000_000, hop), 62_000_000);
}

#[test]
fn sample_index_for_a_position() {
    assert_eq!(first_index_at_or_after(0, 200_000, 10), Some(0));
    assert_eq!(first_index_at_or_after(1, 200_000, 10), Some(1));
    assert_eq!(first_index_at_or_after(200_000, 200_000, 10), Some(1));
    assert_eq!(first_index_at_or_after(1_800_000, 200_000, 10), Some(9));
    assert_eq!(first_index_at_or_after(1_800_001, 200_000, 10), None);
    assert_eq!(first_index_at_or_after(0, 200_000, 0), None);
    assert_eq!(first_index_at_or_after(u64::MAX, 1, usize::MAX), None);
}

#[test]
fn regions_add_up_to_the_file() {
    assert_eq!(region_durations(2_000_000, 900_000_000, 910_000_000), (2_000_000, 898_000_000, 10_000_000));
    let (lead_in, music, lead_out) = region_durations(0, 0, 0);
    assert_eq!(lead_in + music + lead_out, 0);
}

fn track(start_s: u64) -> ExpectedTrack {
    ExpectedTrack {
        position: 0,
        title: String::new(),
        length_us: 0,
        expected_start_us: start_s * 1_000_000,
    }
}

#[test]
fn guided_detection_takes_the_minimum_near_each_expected_start() {
    let hop = 1_000_000;
    let mut curve = vec![-2000i16; 400];
    curve[95] = -4000;
    curve[207] = -3000;
    curve[208] = -3000;
    let tracks = vec![track(0), track(100), track(200), track(330)];
    let found = find_guided_boundaries(&curve, &tracks, 2_000_000, 10_000_000, hop);
    // Windows 92..=112, 192..=212 and 322..=342.
    assert_eq!(positions(&found), vec![95, 207, 322]);
    assert_eq!(found[0].depth, -4000);
    assert_eq!(found[0].prominence, 2000);
    assert_eq!(found[0].score, 20_000_000_000);
    assert_eq!(found[0].width_us, 0);
    assert_eq!(found[2].prominence, 0);
    // One boundary less than tracks.
    assert_eq!(found.len(), tracks.len() - 1);
    assert!(find_guided_boundaries(&curve, &vec![track(0)], 0, 10_000_000, hop).is_empty());
    assert!(find_guided_boundaries(&curve, &Vec::new(), 0, 10_000_000, hop).is_empty());
    // A boundary expected beyond the curve stands where it is expected, at
    // the level of silence.
    let beyond = vec![track(0), track(100), track(500)];
    let found = find_guided_boundaries(&curve, &beyond, 0, 10_000_000, hop);
    assert_eq!(positions(&found), vec![95, 500]);
    assert_eq!((found[1].depth, found[1].prominence, found[1].score), (-8000, 0, 0));
    // Without a curve every boundary does.
    let found = find_guided_boundaries(&Vec::new(), &beyond, 3_000_000, 10_000_000, hop);
    assert_eq!(positions(&found), vec![103, 503]);
    let far = vec![track(0), ExpectedTrack {
        position: 2,
        title: "far".to_string(),
        length_us: 0,
        expected_start_us: u64::MAX,
    }];
    let found = find_guided_boundaries(&curve, &far, 5, 10_000_000, hop);
    assert_eq!(found.len(), 1);
    assert_eq!(found[0].position_us, u64::MAX);
}

#[test]
fn guided_detection_needs_a_close_duration() {
    assert!(use_guided_detection(1_000_000_000, 1_000_000_000, 2));
    assert!(use_guided_detection(1_030_000_000, 1_000_000_000, 5));
    assert!(use_guided_detection(970_000_000, 1_000_000_000, 5));
    assert!(!use_guided_detection(1_030_000_001, 1_000_000_000, 5));
    assert!(!use_guided_detection(969_999_999, 1_000_000_000, 5));
    assert!(!use_guided_detection(1_000_000_000, 1_000_000_000, 1));
    assert!(!use_guided_detection(0, 0, 5));
    assert!(!use_guided_detection(u64::MAX, 1, 5));
}
