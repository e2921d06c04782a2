use autorec::album_finder::{
    enrichment_accepted, match_titles, pool_songs, rebuild_expected_starts, FileInfo,
};
use autorec::album_identifier::IdentifiedSong;
use autorec::discogs::{
    build_release, credential_paths, find_best_side, group_into_sides, has_credentials,
    load_credentials, most_common_artist_album, parse_discogs_url, parse_duration, score_side,
    score_track_titles, search_query, side_from_position, side_to_expected_tracks,
    tracks_from_listing, urlencoded, versions_to_try, DiscogsRelease, DiscogsSide, DiscogsTrack,
    ListedFormat, ListedTrack,
};
use autorec::lookup_discogs::{album_result, release_url, side_result, DiscogsBackend};
use autorec::lookup_musicbrainz::{candidate_indices, MusicBrainzBackend};
use autorec::musicbrainz::{
    build_medium, duration_matches, match_tracks_to_duration, parse_musicbrainz_url,
    parse_recording_filename, ExpectedTrack, ListedRecording, SearchResult,
};
use autorec::text::{byte_length, chars_of, parse_number};

#[test]
fn durations_from_text() {
    assert_eq!(parse_duration("4:05"), 245_000_000);
    assert_eq!(parse_duration("1:02:30"), 3_750_000_000);
    assert_eq!(parse_duration("0:00"), 0);
    assert_eq!(parse_duration(""), 0);
    assert_eq!(parse_duration("245"), 0);
    assert_eq!(parse_duration("1:2:3:4"), 0);
    assert_eq!(parse_duration("x:30"), 30_000_000);
    assert_eq!(parse_duration("3:"), 180_000_000);
    assert_eq!(parse_duration(":"), 0);
    assert_eq!(parse_duration("99999999999999999999:00"), 0);
    assert_eq!(parse_duration("18446744073709551615:00"), u64::MAX);
}

#[test]
fn sides_from_positions() {
    assert_eq!(side_from_position("A1"), 'A');
    assert_eq!(side_from_position("b2.a"), 'B');
    assert_eq!(side_from_position("12"), '?');
    assert_eq!(side_from_position(""), '?');
    assert_eq!(side_from_position("1c"), 'C');
    assert_eq!(side_from_position("-z"), 'Z');
    assert_eq!(side_from_position("\u{e9}1"), '?');
}

#[test]
fn release_numbers_from_references() {
    assert_eq!(parse_discogs_url("https://www.discogs.com/release/1873013-Pink-Floyd"), Some(1873013));
    assert_eq!(parse_discogs_url("https://www.discogs.com/release/42"), Some(42));
    assert_eq!(parse_discogs_url("/release/7/release/8"), Some(7));
    assert_eq!(parse_discogs_url("https://www.discogs.com/release/"), None);
    assert_eq!(parse_discogs_url("https://www.discogs.com/release/x1"), None);
    assert_eq!(parse_discogs_url("  1873013 "), Some(1873013));
    assert_eq!(parse_discogs_url("18446744073709551615"), Some(u64::MAX));
    assert_eq!(parse_discogs_url("18446744073709551616"), None);
    assert_eq!(parse_discogs_url("https://www.discogs.com/master/5"), None);
    assert_eq!(parse_discogs_url(""), None);
}

#[test]
fn queries() {
    assert_eq!(urlencoded("Pink Floyd & Friends = #1"), "Pink+Floyd+%26+Friends+%3D+%231");
    assert_eq!(urlencoded(""), "");
    assert_eq!(search_query("Pink Floyd", "The Wall"), "Pink Floyd The Wall");
    assert_eq!(search_query("Pink Floyd", ""), "Pink Floyd");
    assert_eq!(search_query("Pink Floyd", "Unknown"), "Pink Floyd");
}

fn dtrack(position: &str, title: &str, seconds: u64) -> DiscogsTrack {
    DiscogsTrack {
        position: position.to_string(),
        side: side_from_position(position),
        title: title.to_string(),
        duration_us: seconds * 1_000_000,
    }
}

#[test]
fn tracks_are_grouped_by_side() {
    let tracks = vec![
        dtrack("B1", "Three", 30),
        dtrack("A1", "One", 10),
        dtrack("B2", "Four", 40),
        dtrack("A2", "Two", 20),
        dtrack("1", "Bonus", 5),
    ];
    let sides = group_into_sides(&tracks);
    let labels: Vec<char> = sides.iter().map(|s| s.label).collect();
    assert_eq!(labels, vec!['?', 'A', 'B']);
    let titles: Vec<Vec<&str>> =
        sides.iter().map(|s| s.tracks.iter().map(|t| t.title.as_str()).collect()).collect();
    assert_eq!(titles, vec![vec!["Bonus"], vec!["One", "Two"], vec!["Three", "Four"]]);
    let totals: Vec<u64> = sides.iter().map(|s| s.total_duration_us / 1_000_000).collect();
    assert_eq!(totals, vec![5, 30, 70]);
    assert!(group_into_sides(&Vec::new()).is_empty());
    let expected = side_to_expected_tracks(&sides[2]);
    assert_eq!(expected.len(), 2);
    assert_eq!((expected[0].position, expected[0].expected_start_us, expected[0].length_us), (1, 0, 30_000_000));
    assert_eq!((expected[1].position, expected[1].expected_start_us, expected[1].length_us), (2, 30_000_000, 40_000_000));
    assert_eq!(expected[1].title, "Four");
    assert_eq!(side_to_expected_tracks(&sides[0])[0].position, 1);
}

fn release(sides: Vec<DiscogsSide>) -> DiscogsRelease {
    DiscogsRelease {
        release_id: 1873013,
        title: "The Wall".to_string(),
        artist: "Pink Floyd".to_string(),
        year: Some(1979),
        is_vinyl: true,
        sides,
    }
}

fn titles(v: &[&str]) -> Vec<String> {
    v.iter().map(|s| s.to_string()).collect()
}

#[test]
fn best_side_of_a_release() {
    let sides = group_into_sides(&vec![
        dtrack("A1", "In the Flesh?", 200),
        dtrack("A2", "Mother", 330),
        dtrack("B1", "Goodbye Blue Sky", 170),
        dtrack("B2", "Young Lust", 210),
    ]);
    let r = release(sides);
    let songs = titles(&["Young Lust"]);
    assert_eq!(score_side(&r.sides[0], 380_000_000, &songs), 0);
    assert_eq!(score_side(&r.sides[1], 380_000_000, &songs), 110_000);
    assert_eq!(find_best_side(&r, 380_000_000, &songs).unwrap().label, 'B');
    // By duration alone.
    assert_eq!(find_best_side(&r, 530_000_000, &Vec::new()).unwrap().label, 'A');
    assert_eq!(score_side(&r.sides[0], 530_000_000, &Vec::new()), 10_000);
    // Of equal sides the first; a side without tracks never.
    assert_eq!(find_best_side(&r, 5, &Vec::new()).unwrap().label, 'A');
    let empty = release(vec![DiscogsSide { label: 'A', tracks: Vec::new(), total_duration_us: 0 }]);
    assert!(find_best_side(&empty, 5, &Vec::new()).is_none());
    assert!(find_best_side(&release(Vec::new()), 5, &Vec::new()).is_none());
    // A set of unknown duration gets no points for it.
    assert_eq!(score_track_titles(&songs, &titles(&["young lust"]), 0, 5), 100_000);
    assert_eq!(score_track_titles(&songs, &titles(&["young lust"]), 5, 0), 100_000);
    let result = side_result(&r, 380_000_000, &songs).unwrap();
    assert_eq!(result.release_info, "https://www.discogs.com/release/1873013");
    assert_eq!((result.artist.as_str(), result.album_title.as_str(), result.backend.as_str()), ("Pink Floyd", "The Wall", "Discogs"));
    assert_eq!(result.tracks.len(), 2);
    assert_eq!(result.tracks[1].expected_start_us, 170_000_000);
    assert!(side_result(&empty, 5, &songs).is_none());
    let all = album_result(&r);
    assert_eq!(all.sides.len(), 2);
    assert_eq!((all.sides[1].label, all.sides[1].total_duration_us), ('B', 380_000_000));
    assert_eq!(release_url(0), "https://www.discogs.com/release/0");
    assert_eq!(DiscogsBackend.name(), "Discogs");
}

fn listed(position: &str, title: &str, duration: &str, kind: &str) -> ListedTrack {
    ListedTrack {
        position: position.to_string(),
        title: title.to_string(),
        duration: duration.to_string(),
        track_type: kind.to_string(),
    }
}

#[test]
fn release_from_a_listing() {
    let tracklist = vec![
        listed("", "Side One", "", "heading"),
        listed("A1", "One", "3:20", "track"),
        listed("A2", "Two", "", "track"),
        listed("B1", "Three", "1:00", "track"),
        listed("B", "Video", "9:00", "index"),
    ];
    let tracks = tracks_from_listing(&tracklist);
    assert_eq!(tracks.len(), 3);
    assert_eq!((tracks[0].side, tracks[0].duration_us), ('A', 200_000_000));
    assert_eq!((tracks[1].title.as_str(), tracks[1].duration_us), ("Two", 0));
    let formats = vec![ListedFormat { name: "vinyl".to_string(), descriptions: titles(&["Album"]) }];
    let r = build_release(7, "T".to_string(), &titles(&["X", "Y"]), &formats, &tracklist, Some(1980)).unwrap();
    assert_eq!((r.release_id, r.title.as_str(), r.artist.as_str(), r.year, r.is_vinyl), (7, "T", "X", Some(1980), true));
    assert_eq!(r.sides.len(), 2);
    assert_eq!(r.sides[0].total_duration_us, 200_000_000);
    let formats = vec![
        ListedFormat { name: "CD".to_string(), descriptions: Vec::new() },
        ListedFormat { name: "Box".to_string(), descriptions: titles(&["Album", "2xLP"]) },
    ];
    let r = build_release(7, "T".to_string(), &Vec::new(), &formats, &Vec::new(), None).unwrap();
    assert_eq!((r.artist.as_str(), r.is_vinyl, r.sides.len()), ("Unknown Artist", true, 0));
    let formats = vec![ListedFormat { name: "Vinyls".to_string(), descriptions: titles(&["lp"]) }];
    assert!(!build_release(7, "T".to_string(), &Vec::new(), &formats, &Vec::new(), None).unwrap().is_vinyl);
    let long = vec![
        listed("A1", "One", "18446744073709551615:00", "track"),
        listed("A2", "Two", "0:01", "track"),
    ];
    assert!(build_release(7, "T".to_string(), &Vec::new(), &formats, &long, None).is_none());
}

#[test]
fn credentials_from_files() {
    let good = "consumer_key = \"k1\"\nconsumer_secret = \"s1\"\n".to_string();
    let other = "consumer_key = \"k2\"\nconsumer_secret = \"s2\"\n".to_string();
    let found = load_credentials(&vec![None, Some(good.clone()), Some(other.clone())]).unwrap();
    assert_eq!((found.key.as_str(), found.secret.as_str()), ("k1", "s1"));
    // A file that is no TOML is passed over.
    let found = load_credentials(&vec![Some("not = [toml".to_string()), Some(other)]).unwrap();
    assert_eq!((found.key.as_str(), found.secret.as_str()), ("k2", "s2"));
    // The first TOML file decides, even where it lacks a key.
    let lacking = "consumer_key = \"k\"\n".to_string();
    assert!(load_credentials(&vec![Some(lacking), Some(good.clone())]).is_none());
    let wrong = "consumer_key = 5\nconsumer_secret = \"s\"\n".to_string();
    assert!(load_credentials(&vec![Some(wrong), Some(good.clone())]).is_none());
    assert!(!has_credentials(&vec![None, None]));
    assert!(!has_credentials(&Vec::new()));
    assert!(has_credentials(&vec![Some(good)]));
    assert!(has_credentials(&vec![Some(
        "[other]\nx = 1.5\nd = 1979-05-27\n\n[[list]]\ny = true\n".to_string() + "",
    ), None]) == false);
    assert_eq!(
        credential_paths(Some("/home/me")),
        vec![
            "discogs_credentials.toml",
            "/etc/autorec/discogs_credentials.toml",
            "/home/me/.config/autorec/discogs_credentials.toml"
        ]
    );
    assert_eq!(credential_paths(None).len(), 2);
}

fn song(artist: &str, title: &str, album: Option<&str>) -> IdentifiedSong {
    IdentifiedSong {
        timestamp_us: 0,
        title: title.to_string(),
        artist: artist.to_string(),
        album: album.map(|a| a.to_string()),
    }
}

#[test]
fn songs_are_pooled_once() {
    let files = vec![
        FileInfo {
            path: "1".to_string(),
            songs: vec![song("Pink Floyd", "Money", None), song("pink floyd", "MONEY", Some("x"))],
            music_duration_us: 1,
        },
        FileInfo { path: "2".to_string(), songs: Vec::new(), music_duration_us: 1 },
        FileInfo {
            path: "3".to_string(),
            songs: vec![song("Pink Floyd", "Time", None), song("PINK FLOYD", "money", None), song("Floyd", "Money", None)],
            music_duration_us: 1,
        },
    ];
    let pooled = pool_songs(&files);
    let names: Vec<(&str, &str)> = pooled.iter().map(|s| (s.artist.as_str(), s.title.as_str())).collect();
    assert_eq!(names, vec![("Pink Floyd", "Money"), ("Pink Floyd", "Time"), ("Floyd", "Money")]);
    assert!(pool_songs(&Vec::new()).is_empty());
    assert_eq!(
        most_common_artist_album(&pooled),
        ("Pink Floyd".to_string(), "Unknown".to_string())
    );
    assert_eq!(most_common_artist_album(&Vec::new()), ("Unknown".to_string(), "Unknown".to_string()));
}

fn etrack(position: u32, title: &str, length_s: u64, start_s: u64) -> ExpectedTrack {
    ExpectedTrack {
        position,
        title: title.to_string(),
        length_us: length_s * 1_000_000,
        expected_start_us: start_s * 1_000_000,
    }
}

#[test]
fn titles_are_matched_once() {
    let sources = titles(&["Money", "Time", "Money (Reprise)", "Unrelated", "Us and Them"]);
    let targets = titles(&["Time (Live)", "MONEY", "Us And Them", "Money Money Money"]);
    assert_eq!(match_titles(&sources, &targets), vec![Some(1), Some(0), Some(3), None, Some(2)]);
    assert!(enrichment_accepted(&vec![Some(1), None]));
    assert!(!enrichment_accepted(&vec![Some(1), None, None]));
    assert!(!enrichment_accepted(&vec![None, None]));
    assert!(!enrichment_accepted(&Vec::new()));
    assert!(match_titles(&Vec::new(), &targets).is_empty());
    assert_eq!(match_titles(&sources, &Vec::new()), vec![None; 5]);
    let rebuilt = rebuild_expected_starts(&vec![etrack(1, "a", 10, 99), etrack(2, "b", 0, 99), etrack(3, "c", 5, 99)]);
    let starts: Vec<u64> = rebuilt.iter().map(|t| t.expected_start_us / 1_000_000).collect();
    assert_eq!(starts, vec![0, 10, 10]);
    assert_eq!(rebuilt[2].title, "c");
}

#[test]
fn tracks_for_a_duration() {
    let all = vec![
        etrack(1, "a", 300, 0),
        etrack(2, "b", 300, 300),
        etrack(3, "c", 300, 600),
        etrack(4, "d", 200, 900),
        etrack(5, "e", 200, 1100),
    ];
    // The whole list, within a fifth of its total of 1300 s.
    let (first, tracks) = match_tracks_to_duration(&all, 1_100_000_000);
    assert_eq!((first, tracks.len()), (0, 5));
    let (first, tracks) = match_tracks_to_duration(&all, 1_040_000_001);
    assert_eq!((first, tracks.len()), (0, 5));
    // A file of 590 s: the first two tracks.
    let (first, tracks) = match_tracks_to_duration(&all, 590_000_000);
    assert_eq!((first, tracks.len()), (0, 2));
    // A file of 410 s: the last two tracks, counted from their start.
    let (first, tracks) = match_tracks_to_duration(&all, 410_000_000);
    assert_eq!(first, 3);
    let starts: Vec<u64> = tracks.iter().map(|t| t.expected_start_us / 1_000_000).collect();
    assert_eq!(starts, vec![0, 200]);
    assert_eq!(tracks[0].title, "d");
    assert_eq!(match_tracks_to_duration(&Vec::new(), 5).1.len(), 0);
    // One track that does not fit: the empty first half is closer to a
    // short file.
    let (first, tracks) = match_tracks_to_duration(&all[..1].to_vec(), 100_000_000);
    assert_eq!((first, tracks.len()), (0, 0));
    let (first, tracks) = match_tracks_to_duration(&all[..1].to_vec(), 200_000_000);
    assert_eq!((first, tracks.len()), (0, 1));
    assert!(duration_matches(30_000_000, 100_000_000));
    assert!(!duration_matches(30_000_001, 100_000_000));
    assert!(duration_matches(60_000_000, 1_200_000_000));
    assert!(!duration_matches(60_000_001, 1_200_000_000));
}

#[test]
fn release_identifiers() {
    let id = "b84ee12a-09ef-421b-82de-0441a926375b";
    assert_eq!(parse_musicbrainz_url(&format!("https://musicbrainz.org/release/{}", id)), Some(id.to_string()));
    assert_eq!(parse_musicbrainz_url(&format!("https://musicbrainz.org/release/{}?tab=x#y", id)), Some(id.to_string()));
    assert_eq!(parse_musicbrainz_url(&format!("https://musicbrainz.org/release/{}#y?z", id)), Some(id.to_string()));
    assert_eq!(parse_musicbrainz_url(&format!("/release/a/release/{}", id)), Some(id.to_string()));
    assert_eq!(parse_musicbrainz_url(id), Some(id.to_string()));
    assert_eq!(parse_musicbrainz_url("https://musicbrainz.org/release/"), Some(String::new()));
    assert_eq!(parse_musicbrainz_url("b84ee12a09ef421b82de0441a926375bxxxx"), None);
    assert_eq!(parse_musicbrainz_url("short-id"), None);
    assert_eq!(parse_musicbrainz_url(""), None);
}

#[test]
fn recording_names() {
    assert_eq!(
        parse_recording_filename("/music/pink_floyd_the_wall.2.wav"),
        Some((titles(&["pink", "floyd", "the", "wall"]), 2))
    );
    assert_eq!(parse_recording_filename("a_b.10.WAV"), Some((titles(&["a", "b"]), 10)));
    assert_eq!(parse_recording_filename("a__b.0.wav"), Some((titles(&["a", "", "b"]), 0)));
    assert_eq!(parse_recording_filename("single.1.wav"), None);
    assert_eq!(parse_recording_filename("a_b.wav"), None);
    assert_eq!(parse_recording_filename("a_b.x.wav"), None);
    assert_eq!(parse_recording_filename("a_b.1.Wav"), None);
    assert_eq!(parse_recording_filename("a_b.1.flac"), None);
    assert_eq!(parse_recording_filename("a_b..wav"), None);
    assert_eq!(parse_recording_filename("a_b.4294967295.wav"), Some((titles(&["a", "b"]), u32::MAX)));
    assert_eq!(parse_recording_filename("a_b.4294967296.wav"), None);
    assert_eq!(parse_recording_filename("/music/"), None);
    assert_eq!(parse_recording_filename(".wav"), None);
    assert_eq!(parse_recording_filename("a.b_c.3.wav"), Some((titles(&["a.b", "c"]), 3)));
}

#[test]
fn medium_from_a_listing() {
    let listed = vec![
        ListedRecording { title: "One".to_string(), length_ms: Some(200_000), position: 1 },
        ListedRecording { title: "Two".to_string(), length_ms: None, position: 2 },
        ListedRecording { title: "Three".to_string(), length_ms: Some(100_500), position: 3 },
    ];
    let medium = build_medium(2, Some("12\" Vinyl".to_string()), &listed).unwrap();
    assert_eq!((medium.position, medium.format.as_deref()), (2, Some("12\" Vinyl")));
    assert_eq!(medium.tracks.len(), 2);
    assert_eq!((medium.tracks[1].title.as_str(), medium.tracks[1].position), ("Three", 3));
    assert_eq!((medium.tracks[1].expected_start_us, medium.tracks[1].length_us), (200_000_000, 100_500_000));
    assert_eq!(medium.total_duration_us, 300_500_000);
    let long = vec![ListedRecording { title: "x".to_string(), length_ms: Some(u64::MAX / 1000 + 1), position: 1 }];
    assert!(build_medium(1, None, &long).is_none());
    assert_eq!(build_medium(1, None, &Vec::new()).unwrap().total_duration_us, 0);
}

fn result(id: &str, vinyl: bool) -> SearchResult {
    SearchResult {
        release_id: id.to_string(),
        title: "The Wall".to_string(),
        artist: "Pink Floyd".to_string(),
        score: 100,
        is_vinyl: vinyl,
        track_count: 26,
    }
}

#[test]
fn musicbrainz_candidates_and_results() {
    let results = vec![result("a", false), result("b", true), result("c", false), result("d", true)];
    assert_eq!(candidate_indices(&results, true), vec![1, 3]);
    assert_eq!(candidate_indices(&results, false), vec![0, 1, 2, 3]);
    assert_eq!(candidate_indices(&results[..1].to_vec(), true), vec![0]);
    assert!(candidate_indices(&Vec::new(), true).is_empty());
    let vinyl = MusicBrainzBackend { vinyl_only: true };
    let all = MusicBrainzBackend { vinyl_only: false };
    assert_eq!((vinyl.name(), all.name()), ("MusicBrainz (vinyl)", "MusicBrainz (all)"));
    let side = vinyl.side_result(&results[1], vec![etrack(1, "x", 5, 0)]).unwrap();
    assert_eq!(side.release_info, "https://musicbrainz.org/release/b");
    assert_eq!((side.artist.as_str(), side.album_title.as_str(), side.backend.as_str()), ("Pink Floyd", "The Wall", "MusicBrainz (vinyl)"));
    assert!(all.side_result(&results[1], Vec::new()).is_none());
}

#[test]
fn numbers_may_carry_a_plus_sign() {
    assert_eq!(parse_discogs_url("+42"), Some(42));
    assert_eq!(parse_discogs_url(" +42 "), Some(42));
    assert_eq!(parse_discogs_url("+"), None);
    assert_eq!(parse_discogs_url("++42"), None);
    assert_eq!(parse_discogs_url("-42"), None);
    assert_eq!(parse_discogs_url("4+2"), None);
    // Behind the marker of a URL only digits are read.
    assert_eq!(parse_discogs_url("/release/+42"), None);
    assert_eq!(
        parse_recording_filename("pink_floyd.+2.wav"),
        Some((vec!["pink".to_string(), "floyd".to_string()], 2))
    );
    assert_eq!(parse_recording_filename("pink_floyd.+.wav"), None);
    assert_eq!(parse_recording_filename("pink_floyd.-2.wav"), None);
    let years = vec![Some("1979".to_string()), Some("+2011".to_string()), Some("-2016".to_string())];
    assert_eq!(versions_to_try(&years), vec![1, 0, 2]);
    assert_eq!(parse_duration("+4:+05"), 245_000_000);
    assert_eq!(parse_duration("-4:05"), 5_000_000);
    assert_eq!(parse_number(&chars_of("+007")), Some(7));
    assert_eq!(parse_number(&chars_of("18446744073709551615")), Some(u64::MAX));
    assert_eq!(parse_number(&chars_of("+18446744073709551616")), None);
    assert_eq!(parse_number(&chars_of("")), None);
}

#[test]
fn lengths_are_counted_in_bytes() {
    assert_eq!(byte_length(&chars_of("")), 0);
    assert_eq!(byte_length(&chars_of("abc")), 3);
    assert_eq!(byte_length(&chars_of("\u{e7}a")), 3);
    assert_eq!(byte_length(&chars_of("\u{7f}\u{80}\u{7ff}\u{800}\u{ffff}\u{10000}")), 1 + 2 + 2 + 3 + 3 + 4);
    assert_eq!(byte_length(&chars_of("\u{10ffff}")), 4);
    // A word of two characters that takes three bytes counts.
    assert_eq!(match_titles(&titles(&["\u{c7}a"]), &titles(&["\u{e7}a ira"])), vec![Some(0)]);
    // A word of two bytes does not.
    assert_eq!(match_titles(&titles(&["an"]), &titles(&["an die freude"])), vec![None]);
    // An identifier has 36 bytes, not 36 characters.
    let id = "768a1c5f-3657-4e29-aac4-c1de6ee5221f";
    assert_eq!(parse_musicbrainz_url(id), Some(id.to_string()));
    let wide = "768a1c5f-3657-4e29-aac4-c1de6ee5221\u{e9}";
    assert_eq!(wide.chars().count(), 36);
    assert_eq!(parse_musicbrainz_url(wide), None);
    let narrow = "768a1c5f-3657-4e29-aac4-c1de6ee522\u{e9}";
    assert_eq!(narrow.len(), 36);
    assert_eq!(parse_musicbrainz_url(narrow), Some(narrow.to_string()));
}
