use autorec::cuefile::{
    cue_file_path, generate_cue_file, generate_info_file, has_cue_file, info_file_path, Valley,
};

fn boundary(position_us: u64) -> Valley {
    Valley {
        position_us,
        depth: -6000,
        prominence: 1000,
        left_level: -2000,
        right_level: -2000,
        width_us: 0,
        score: 1,
    }
}

#[test]
fn cue_index_cuts_off_part_of_a_frame() {
    let cue = generate_cue_file("side.wav", "A", "T", &Vec::new(), 0, &vec![boundary(183_426_700)]);
    assert!(cue.contains("    INDEX 01 03:03:32\n"), "{}", cue);
    let cue = generate_cue_file("side.wav", "A", "T", &Vec::new(), 999_999, &vec![boundary(59_986_667)]);
    assert!(cue.contains("    INDEX 01 00:00:74\n"), "{}", cue);
    assert!(cue.contains("    INDEX 01 00:59:74\n"), "{}", cue);
    let cue = generate_cue_file("side.wav", "A", "T", &Vec::new(), 60_000_000, &vec![boundary(6_000_013_334)]);
    assert!(cue.contains("    INDEX 01 01:00:00\n"), "{}", cue);
    assert!(cue.contains("    INDEX 01 100:00:01\n"), "{}", cue);
}

#[test]
fn cue_sheet_text() {
    let names = vec!["#1 Speak to Me".to_string(), "Breathe".to_string(), "#2 On the Run".to_string()];
    let cue = generate_cue_file(
        "/music/dark_side.1.wav",
        "Pink Floyd",
        "The Dark Side of the Moon",
        &names,
        2_000_000,
        &vec![boundary(68_500_000), boundary(237_000_000), boundary(450_000_000)],
    );
    let expected = "REM GENERATOR \"HiFiBerry AutoRec boundary_finder\"\n\
PERFORMER \"Pink Floyd\"\n\
TITLE \"The Dark Side of the Moon\"\n\
FILE \"dark_side.1.wav\" WAVE\n  TRACK 01 AUDIO\n    TITLE \"Speak to Me\"\n    PERFORMER \"Pink Floyd\"\n    INDEX 01 00:02:00\n  TRACK 02 AUDIO\n    TITLE \"Breathe\"\n    PERFORMER \"Pink Floyd\"\n    INDEX 01 01:08:37\n  TRACK 03 AUDIO\n    TITLE \"#2 On the Run\"\n    PERFORMER \"Pink Floyd\"\n    INDEX 01 03:57:00\n  TRACK 04 AUDIO\n    TITLE \"Track 4\"\n    PERFORMER \"Pink Floyd\"\n    INDEX 01 07:30:00\n";
    assert_eq!(cue, expected);
}

#[test]
fn cue_sheet_without_boundaries_has_one_track() {
    let cue = generate_cue_file("dir/", "A", "T", &Vec::new(), 0, &Vec::new());
    assert_eq!(
        cue,
        "REM GENERATOR \"HiFiBerry AutoRec boundary_finder\"\nPERFORMER \"A\"\nTITLE \"T\"\nFILE \"unknown.wav\" WAVE\n  TRACK 01 AUDIO\n    TITLE \"Track 1\"\n    PERFORMER \"A\"\n    INDEX 01 00:00:00\n"
    );
}

#[test]
fn sidecar_paths() {
    assert_eq!(cue_file_path("/music/side_a.1.wav", true), "/music/side_a.1.cue");
    assert_eq!(cue_file_path("/music/side_a.1.wav", false), "/music/side_a.1.guess.cue");
    assert_eq!(info_file_path("/music/side_a.1.wav", true), "/music/side_a.1.cue.txt");
    assert_eq!(info_file_path("/music/side_a.1.wav", false), "/music/side_a.1.guess.cue.txt");
    assert_eq!(cue_file_path("side", true), "side.cue");
    assert_eq!(cue_file_path("dir.d/side", false), "dir.d/side.guess.cue");
    assert_eq!(cue_file_path(".hidden", true), ".hidden.cue");
    assert_eq!(cue_file_path("a/.hidden.wav", true), "a/.hidden.cue");
    assert_eq!(cue_file_path("", true), ".cue");
}

#[test]
fn has_cue_file_knows_both_names() {
    let existing = vec!["a.cue".to_string(), "b.guess.cue".to_string(), "c.wav".to_string()];
    assert!(has_cue_file("a.wav", &existing));
    assert!(has_cue_file("b.wav", &existing));
    assert!(!has_cue_file("c.wav", &existing));
    assert!(!has_cue_file("a.wav", &Vec::new()));
}

#[test]
fn info_report_text() {
    let names = vec!["One".to_string()];
    let expected = vec![(0u64, 60_000_000u64), (60_000_000, 30_000_000)];
    let info = generate_info_file(
        "/music/side.wav",
        1_500_000,
        95_004_999,
        &vec![boundary(62_345_000)],
        &names,
        Some(&expected),
        Some("Artist - Album [id]"),
    );
    let text = "Vinyl Recording Analysis\n========================\n\nFile: side.wav\n\n\
Groove Timing:\n--------------\nLead-in (groove-in):  1.50s\nLead-out (groove-out): 95.00s\n\n\
MusicBrainz Match:\n------------------\nArtist - Album [id]\n\n\
Detection Method: Guided (MusicBrainz-based)\n\n\
Track Boundaries:\n-----------------\n\
Track 1: One\n  Start: 1.50s\n  End:   62.35s\n  Duration: 60.85s\n  Expected start: 0.00s (offset: +0.00s)\n  Expected length: 60.00s (diff: +0.85s)\n\n\
Track 2: Unknown\n  Start: 62.35s\n  End:   95.00s\n  Duration: 32.66s\n  Expected start: 60.00s (offset: +0.85s)\n  Expected length: 30.00s (diff: +2.66s)\n";
    assert_eq!(info, text);
}

#[test]
fn info_report_without_release() {
    let info = generate_info_file("side.wav", 0, 10_000_000, &Vec::new(), &Vec::new(), None, None);
    assert_eq!(
        info,
        "Vinyl Recording Analysis\n========================\n\nFile: side.wav\n\nGroove Timing:\n--------------\nLead-in (groove-in):  0.00s\nLead-out (groove-out): 10.00s\n\nDetection Method: Autonomous (valley-based)\n\n"
    );
    // A track that ends before it starts has a negative duration.
    let info = generate_info_file(
        "x/",
        5_000_000,
        1_000_000,
        &vec![boundary(2_000_000)],
        &Vec::new(),
        Some(&vec![(3_000_000, 0)]),
        None,
    );
    assert!(info.starts_with("Vinyl Recording Analysis\n========================\n\nFile: x/\n\n"));
    assert!(info.contains("Track 1: Unknown\n  Start: 5.00s\n  End:   2.00s\n  Duration: -3.00s\n  Expected start: 3.00s (offset: -3.00s)\n  Expected length: 0.00s (diff: -3.00s)\n\n"));
    assert!(info.ends_with("Track 2: Unknown\n  Start: 2.00s\n  End:   1.00s\n  Duration: -1.00s\n"));
}
