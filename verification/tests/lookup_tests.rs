use autorec::album_identifier::IdentifiedSong;
use autorec::lookup::{
    album_answer, album_from_side, answer_of, apply_durations, assign_files_to_album_sides,
    assign_greedily, find_album_side_with_fallback, find_album_with_fallback, score_file_vs_side,
    score_files, total_length, track_titles, AlbumIdentifier, AlbumResult, AlbumSideResult,
    FileForAssignment, SideInfo,
};
use autorec::musicbrainz::ExpectedTrack;

fn track(title: &str, length_s: u64) -> ExpectedTrack {
    ExpectedTrack {
        position: 1,
        title: title.to_string(),
        length_us: length_s * 1_000_000,
        expected_start_us: 0,
    }
}

fn side(label: char, titles: &[&str], total_s: u64) -> SideInfo {
    SideInfo {
        label,
        tracks: titles.iter().map(|t| track(t, 0)).collect(),
        total_duration_us: total_s * 1_000_000,
    }
}

fn file(path: &str, songs: &[&str], duration_s: u64) -> FileForAssignment {
    FileForAssignment {
        path: path.to_string(),
        song_titles: songs.iter().map(|s| s.to_string()).collect(),
        duration_us: duration_s * 1_000_000,
    }
}

fn album(sides: Vec<SideInfo>) -> AlbumResult {
    AlbumResult {
        artist: "Pink Floyd".to_string(),
        album_title: "The Wall".to_string(),
        release_info: "https://www.discogs.com/release/1".to_string(),
        sides,
        backend: "Discogs".to_string(),
    }
}

fn titles(v: &[&str]) -> Vec<String> {
    v.iter().map(|s| s.to_string()).collect()
}

#[test]
fn score_weighs_songs_and_duration() {
    let a = side('A', &["In the Flesh?", "The Thin Ice", "Mother"], 1000);
    // Both songs match, the duration is exact.
    assert_eq!(score_file_vs_side(&titles(&["Mother", "The Thin Ice"]), &a, 1_000_000_000), 110_000);
    // One song of two matches; the duration is 5 % off: half the points.
    assert_eq!(score_file_vs_side(&titles(&["Mother", "Hey You"]), &a, 1_000_000_000), 60_000);
    let off = side('A', &["Mother"], 950);
    assert_eq!(score_file_vs_side(&titles(&["Mother"]), &off, 1_000_000_000), 105_000);
    let off = side('A', &["Mother"], 1050);
    assert_eq!(score_file_vs_side(&titles(&["Mother"]), &off, 1_000_000_000), 105_000);
    // A tenth off or more: no points for the duration.
    let off = side('A', &["Mother"], 900);
    assert_eq!(score_file_vs_side(&titles(&["Mother"]), &off, 1_000_000_000), 100_000);
    let off = side('A', &["Mother"], 5000);
    assert_eq!(score_file_vs_side(&titles(&["Nothing"]), &off, 1_000_000_000), 0);
    // An unknown duration is neutral.
    let unknown = side('A', &["Mother"], 0);
    assert_eq!(score_file_vs_side(&titles(&["Mother"]), &unknown, 1_000_000_000), 105_000);
    assert_eq!(score_file_vs_side(&titles(&["Nothing"]), &unknown, 1_000_000_000), 5_000);
    // No tracks or no songs: nothing.
    assert_eq!(score_file_vs_side(&titles(&["Mother"]), &side('A', &[], 1000), 1_000_000_000), 0);
    assert_eq!(score_file_vs_side(&Vec::new(), &a, 1_000_000_000), 0);
    // Thirds are rounded down.
    assert_eq!(
        score_file_vs_side(&titles(&["Mother", "x", "y"]), &unknown, 1_000_000_000),
        33_333 + 5_000
    );
    // A file without duration gets no points for it.
    assert_eq!(score_file_vs_side(&titles(&["Mother"]), &a, 0), 100_000);
}

#[test]
fn titles_match_by_words_of_three_letters() {
    let a = side('A', &["Another Brick in the Wall, Part 2"], 0);
    let score = |song: &str| score_file_vs_side(&titles(&[song]), &a, 1) - 5_000;
    assert_eq!(score("another brick in the wall"), 100_000);
    assert_eq!(score("BRICK"), 100_000);
    // Words of fewer than three letters do not count.
    assert_eq!(score("in 2"), 0);
    // One word of four is less than three in ten.
    assert_eq!(score("Wall of Sound Machine Gun"), 0);
    // One word of three: a third.
    assert_eq!(score("wall sound machine"), 100_000);
    assert_eq!(score("wall sound machine guns"), 0);
    // A word matches inside another word.
    assert_eq!(score("rick"), 100_000);
    assert_eq!(score(""), 0);
    assert_eq!(score("   "), 0);
}

#[test]
fn side_assignment_of_two_files() {
    let release = album(vec![
        side('A', &["In the Flesh?", "The Thin Ice", "Mother"], 1333),
        side('B', &["Goodbye Blue Sky", "Empty Spaces", "Young Lust"], 1049),
        side('C', &["Hey You", "Is There Anybody Out There?", "Comfortably Numb"], 793),
        side('D', &["The Show Must Go On", "Run Like Hell", "The Trial"], 1130),
    ]);
    let files = vec![
        file("wall.1.wav", &["Mother", "The Thin Ice"], 1333),
        file("wall.2.wav", &["Comfortably Numb", "Hey You"], 793),
    ];
    let result = assign_files_to_album_sides(&files, &release);
    assert_eq!(result.len(), 2);
    assert_eq!(result[0].path, "wall.1.wav");
    assert_eq!(result[0].side_label, 'A');
    assert_eq!(result[0].score, 110_000);
    assert_eq!(result[0].artist, "Pink Floyd");
    assert_eq!(result[0].album_title, "The Wall");
    assert_eq!(result[0].release_info, "https://www.discogs.com/release/1");
    assert_eq!(result[0].backend, "Discogs");
    assert_eq!(result[0].tracks.len(), 3);
    assert_eq!(result[0].tracks[2].title, "Mother");
    assert_eq!(result[1].path, "wall.2.wav");
    assert_eq!(result[1].side_label, 'C');
    assert_eq!(result[1].score, 110_000);
}

#[test]
fn no_side_is_assigned_twice() {
    // Both files match side A best; the second gets the next best side.
    let release = album(vec![
        side('A', &["Mother", "Young Lust"], 1000),
        side('B', &["Mother"], 2000),
    ]);
    let files = vec![
        file("one.wav", &["Mother"], 1000),
        file("two.wav", &["Mother", "Young Lust"], 1000),
        file("three.wav", &["Mother"], 1000),
    ];
    let result = assign_files_to_album_sides(&files, &release);
    // Of the equal scores 110 000 the first file wins side A. Side B then
    // goes to the file that matches it better: the third.
    assert_eq!(result[0].side_label, 'A');
    assert_eq!(result[2].side_label, 'B');
    assert_eq!(result[2].score, 100_000);
    assert_eq!(result[1].side_label, '?');
    assert!(result[1].tracks.is_empty());
    assert_eq!(result[1].score, 0);
    assert_eq!(result[1].backend, "Discogs (no side matched)");
    assert_eq!(result[1].artist, "Pink Floyd");
    assert_eq!(result[1].album_title, "The Wall");
    let assigned: Vec<char> = result.iter().map(|r| r.side_label).filter(|&l| l != '?').collect();
    for a in 0..assigned.len() {
        for b in a + 1..assigned.len() {
            assert!(assigned[a] != assigned[b]);
        }
    }
}

#[test]
fn greedy_assignment_takes_the_best_pair_first() {
    let table = vec![vec![10, 50, 0], vec![60, 55, 0], vec![5, 0, 0]];
    assert_eq!(assign_greedily(&table, 3), vec![Some(1), Some(0), None]);
    // A score of 0 assigns nothing.
    assert_eq!(assign_greedily(&vec![vec![0, 0], vec![0, 0]], 2), vec![None, None]);
    // More files than sides, more sides than files.
    assert_eq!(assign_greedily(&vec![vec![1], vec![2], vec![3]], 1), vec![None, None, Some(0)]);
    assert_eq!(assign_greedily(&vec![vec![1, 2, 3]], 3), vec![Some(2)]);
    assert_eq!(assign_greedily(&Vec::new(), 3), Vec::<Option<usize>>::new());
    assert_eq!(assign_greedily(&vec![Vec::new(), Vec::new()], 0), vec![None, None]);
    // Equal scores: file by file, side by side.
    assert_eq!(assign_greedily(&vec![vec![7, 7], vec![7, 7]], 2), vec![Some(0), Some(1)]);
}

#[test]
fn score_table_has_a_row_per_file() {
    let sides = vec![side('A', &["Mother"], 0), side('B', &["Hey You"], 0)];
    let files = vec![file("a", &["Hey You"], 1), file("b", &["Mother"], 1), file("c", &[], 1)];
    assert_eq!(
        score_files(&files, &sides),
        vec![vec![5_000, 105_000], vec![105_000, 5_000], vec![0, 0]]
    );
}

#[test]
fn usable_durations() {
    let mut result = AlbumSideResult {
        artist: "a".to_string(),
        album_title: "b".to_string(),
        release_info: "c".to_string(),
        tracks: vec![track("x", 0), track("y", 0)],
        backend: "Discogs".to_string(),
    };
    assert!(!result.has_usable_durations());
    assert_eq!(track_titles(&result), vec!["x".to_string(), "y".to_string()]);
    // Lengths that are all 0, or no lengths, are not taken over.
    assert!(!apply_durations(&mut result, vec![track("x", 0)], "MusicBrainz (vinyl)"));
    assert!(!apply_durations(&mut result, Vec::new(), "MusicBrainz (vinyl)"));
    assert_eq!(result.backend, "Discogs");
    assert_eq!(result.tracks.len(), 2);
    assert!(apply_durations(&mut result, vec![track("x", 0), track("y", 200)], "MusicBrainz (vinyl)"));
    assert_eq!(result.backend, "Discogs + MusicBrainz (vinyl) (durations)");
    assert_eq!(result.tracks[1].length_us, 200_000_000);
    assert!(result.has_usable_durations());
    let release = album(vec![side('A', &["x"], 0)]);
    assert!(!release.has_usable_durations());
    let mut release = release;
    release.sides.push(SideInfo { label: 'B', tracks: vec![track("z", 1)], total_duration_us: 0 });
    assert!(release.has_usable_durations());
}

#[test]
fn release_of_one_side() {
    let result = AlbumSideResult {
        artist: "a".to_string(),
        album_title: "b".to_string(),
        release_info: "c".to_string(),
        tracks: vec![track("x", 100), track("y", 200)],
        backend: "MusicBrainz (all)".to_string(),
    };
    let release = album_from_side(result);
    assert_eq!(release.sides.len(), 1);
    assert_eq!(release.sides[0].label, '?');
    assert_eq!(release.sides[0].total_duration_us, 300_000_000);
    assert_eq!(release.sides[0].tracks.len(), 2);
    assert_eq!((release.artist.as_str(), release.backend.as_str()), ("a", "MusicBrainz (all)"));
    let mut long = track("x", 0);
    long.length_us = u64::MAX;
    assert_eq!(total_length(&vec![long.clone(), long]), u64::MAX);
}

struct Fixed {
    name: &'static str,
    side: Option<AlbumSideResult>,
    fails: bool,
    durations: Option<Vec<ExpectedTrack>>,
}

impl AlbumIdentifier for Fixed {
    fn name(&self) -> String {
        self.name.to_string()
    }

    fn find_album_side(
        &self,
        _songs: &Vec<IdentifiedSong>,
        _file_duration_us: u64,
    ) -> Result<Option<AlbumSideResult>, String> {
        if self.fails {
            Err("down".to_string())
        } else {
            Ok(self.side.clone())
        }
    }

    fn fetch_durations_for_album(
        &self,
        _artist: &str,
        _album_title: &str,
        _track_titles: &Vec<String>,
        _file_duration_us: u64,
    ) -> Result<Option<Vec<ExpectedTrack>>, String> {
        Ok(self.durations.clone())
    }
}

fn found(backend: &str, lengths: &[u64]) -> AlbumSideResult {
    AlbumSideResult {
        artist: "a".to_string(),
        album_title: "b".to_string(),
        release_info: "c".to_string(),
        tracks: lengths.iter().map(|&l| track("t", l)).collect(),
        backend: backend.to_string(),
    }
}

#[test]
fn fallback_takes_the_first_result_and_enriches_it() {
    let backends = vec![
        Fixed { name: "Failing", side: None, fails: true, durations: Some(vec![track("t", 9)]) },
        Fixed { name: "Discogs", side: Some(found("Discogs", &[0, 0])), fails: false, durations: None },
        Fixed { name: "Empty", side: None, fails: false, durations: Some(vec![track("t", 0)]) },
        Fixed { name: "MB", side: Some(found("MB", &[5])), fails: false, durations: Some(vec![track("t", 7)]) },
    ];
    let result = find_album_side_with_fallback(&backends, &Vec::new(), 0).unwrap().unwrap();
    // The failing service is asked for lengths first, and has some.
    assert_eq!(result.backend, "Discogs + Failing (durations)");
    assert_eq!(result.tracks.len(), 1);
    assert_eq!(result.tracks[0].length_us, 9_000_000);
    let release = find_album_with_fallback(&backends, &Vec::new(), 0).unwrap().unwrap();
    assert_eq!(release.backend, "Discogs");
    assert_eq!(release.sides.len(), 1);
    // Lengths of no use are passed over.
    let backends = vec![
        Fixed { name: "Discogs", side: Some(found("Discogs", &[0, 0])), fails: false, durations: Some(vec![track("t", 3)]) },
        Fixed { name: "Empty", side: None, fails: false, durations: Some(vec![track("t", 0)]) },
        Fixed { name: "None", side: None, fails: false, durations: None },
        Fixed { name: "MB", side: None, fails: false, durations: Some(vec![track("t", 7)]) },
    ];
    let result = find_album_side_with_fallback(&backends, &Vec::new(), 0).unwrap().unwrap();
    assert_eq!(result.backend, "Discogs + MB (durations)");
    // A result with lengths stays as it is.
    let backends = vec![
        Fixed { name: "MB", side: Some(found("MB", &[5])), fails: false, durations: None },
        Fixed { name: "Other", side: None, fails: false, durations: Some(vec![track("t", 7)]) },
    ];
    let result = find_album_side_with_fallback(&backends, &Vec::new(), 0).unwrap().unwrap();
    assert_eq!((result.backend.as_str(), result.tracks[0].length_us), ("MB", 5_000_000));
    // Nobody finds anything.
    let backends = vec![Fixed { name: "x", side: None, fails: false, durations: None }];
    assert!(find_album_side_with_fallback(&backends, &Vec::new(), 0).unwrap().is_none());
    assert!(find_album_with_fallback(&backends, &Vec::new(), 0).unwrap().is_none());
    let nobody: Vec<Fixed> = Vec::new();
    assert!(find_album_side_with_fallback(&nobody, &Vec::new(), 0).unwrap().is_none());
}

#[test]
fn failed_service_counts_as_nothing_found() {
    assert_eq!(answer_of(Ok(Some(7u32))), Some(7));
    assert_eq!(answer_of::<u32>(Ok(None)), None);
    assert_eq!(answer_of::<u32>(Err("timeout".to_string())), None);
}

#[test]
fn answer_for_a_side_makes_the_answer_for_a_release() {
    let release = album_answer(Ok(Some(found("Discogs", &[3, 4])))).unwrap().unwrap();
    assert_eq!(release.sides.len(), 1);
    assert_eq!(release.sides[0].label, '?');
    assert_eq!(release.sides[0].tracks.len(), 2);
    assert_eq!(release.sides[0].total_duration_us, 7_000_000);
    assert_eq!((release.artist.as_str(), release.backend.as_str()), ("a", "Discogs"));
    assert!(album_answer(Ok(None)).unwrap().is_none());
    assert_eq!(album_answer(Err("down".to_string())).unwrap_err(), "down");
}
