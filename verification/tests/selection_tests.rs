use autorec::album_finder::{
    any_assigned, enrich_release, enrich_side, file_result, needs_enrichment, with_enriched,
    FileSideResult,
};
use autorec::album_identifier::{classify_answer, classify_failure, IdentifiedSong, LookupOutcome};
use autorec::discogs::{
    candidate_releases, consider_release, number_of_track, search_result_is_vinyl,
    version_is_vinyl, versions_to_try, DiscogsSearchResult, DiscogsSide, DiscogsTrack,
};
use autorec::lookup_musicbrainz::{unique_songs, MAX_TOP_CANDIDATES};
use autorec::musicbrainz::{is_on_vinyl, is_sure_match, search_splits, ExpectedTrack};
use autorec::selection::{first_smallest, order_descending, tally, top_counts};
use autorec::source_discovery::{
    discover_alsa_sources, discover_file_sources, file_source, parse_arecord_line,
};
use autorec::text::{chars_of, index_of_text};

fn strings(v: &[&str]) -> Vec<String> {
    v.iter().map(|s| s.to_string()).collect()
}

#[test]
fn order_by_falling_key_keeps_equals_in_place() {
    assert_eq!(order_descending(&vec![3, 9, 3, 7, 9], 5), vec![1, 4, 3, 0, 2]);
    assert_eq!(order_descending(&vec![3, 9, 3, 7, 9], 2), vec![1, 4]);
    assert_eq!(order_descending(&vec![3, 9, 3, 7, 9], 100), vec![1, 4, 3, 0, 2]);
    assert_eq!(order_descending(&vec![0, 0, 0], 3), vec![0, 1, 2]);
    assert_eq!(order_descending(&vec![u64::MAX, 0], 2), vec![0, 1]);
    assert!(order_descending(&vec![1, 2], 0).is_empty());
    assert!(order_descending(&Vec::new(), 4).is_empty());
}

#[test]
fn nearest_is_the_first_of_the_smallest() {
    assert_eq!(first_smallest(&vec![5, 2, 7, 2]), Some(1));
    assert_eq!(first_smallest(&vec![5]), Some(0));
    assert_eq!(first_smallest(&vec![1, 1, 0]), Some(2));
    assert_eq!(first_smallest(&Vec::new()), None);
}

#[test]
fn names_are_counted_at_their_first_place() {
    let (firsts, counts) = tally(&strings(&["b", "a", "b", "c", "a", "b"]));
    assert_eq!(firsts, vec![0, 1, 3]);
    assert_eq!(counts, vec![3, 2, 1]);
    let (firsts, counts) = tally(&strings(&["x"]));
    assert_eq!((firsts, counts), (vec![0], vec![1]));
    let (firsts, counts) = tally(&strings(&["A", "a"]));
    assert_eq!((firsts, counts), (vec![0, 1], vec![1, 1]));
    let (firsts, counts) = tally(&Vec::new());
    assert!(firsts.is_empty() && counts.is_empty());
}

#[test]
fn top_counts_are_within_one_of_the_first() {
    assert_eq!(top_counts(&vec![4, 4, 3, 2, 3], 15), vec![0, 1, 2, 4]);
    assert_eq!(top_counts(&vec![4, 4, 3, 2, 3], 2), vec![0, 1]);
    assert_eq!(top_counts(&vec![1, 0, 0], 15), vec![0, 1, 2]);
    assert_eq!(top_counts(&vec![0, 0], 15), vec![0, 1]);
    assert_eq!(top_counts(&vec![2, 5], 15), vec![0, 1]);
    assert!(top_counts(&vec![4], 0).is_empty());
    assert!(top_counts(&Vec::new(), 15).is_empty());
    assert_eq!(MAX_TOP_CANDIDATES, 15);
}

fn years(v: &[Option<&str>]) -> Vec<Option<String>> {
    v.iter().map(|y| y.map(|t| t.to_string())).collect()
}

#[test]
fn newest_versions_come_first() {
    let listed = years(&[Some("1979"), None, Some("2011"), Some("1979"), Some("x"), Some("2016")]);
    assert_eq!(versions_to_try(&listed), vec![5, 2, 0, 3, 1, 4]);
    let many = years(&[Some("1"), Some("2"), Some("3"), Some("4"), Some("5"), Some("6"), Some("7"), Some("8"), Some("9"), Some("10")]);
    assert_eq!(versions_to_try(&many), vec![9, 8, 7, 6, 5, 4, 3, 2]);
    assert_eq!(versions_to_try(&years(&[Some("4294967296"), Some("1")])), vec![1, 0]);
    assert!(versions_to_try(&Vec::new()).is_empty());
}

fn found(id: u64, vinyl: bool) -> DiscogsSearchResult {
    DiscogsSearchResult {
        release_id: id,
        title: "The Wall".to_string(),
        format: Vec::new(),
        country: None,
        year: None,
        master_id: None,
        is_vinyl: vinyl,
    }
}

#[test]
fn releases_to_look_at() {
    let mixed = vec![found(1, false), found(2, true), found(3, false), found(4, true)];
    assert_eq!(candidate_releases(&mixed, true), vec![1, 3]);
    assert_eq!(candidate_releases(&mixed, false), vec![0, 1, 2, 3]);
    let plain: Vec<DiscogsSearchResult> = (0..7).map(|i| found(i, false)).collect();
    assert_eq!(candidate_releases(&plain, true), vec![0, 1, 2, 3, 4]);
    assert_eq!(candidate_releases(&plain, false), vec![0, 1, 2, 3, 4]);
    assert!(candidate_releases(&Vec::new(), true).is_empty());
}

#[test]
fn best_release_is_the_first_with_the_highest_score() {
    assert_eq!(consider_release(None, 0, Some(0), true), (Some((0, 0)), false));
    assert_eq!(consider_release(None, 0, None, true), (None, false));
    assert_eq!(consider_release(Some((0, 50_000)), 1, Some(50_000), true), (Some((0, 50_000)), false));
    assert_eq!(consider_release(Some((0, 50_000)), 1, Some(50_001), true), (Some((1, 50_001)), false));
    assert_eq!(consider_release(Some((0, 50_000)), 2, Some(100_000), true), (Some((2, 100_000)), true));
    assert_eq!(consider_release(Some((0, 50_000)), 2, Some(100_000), false), (Some((2, 100_000)), false));
    assert_eq!(consider_release(Some((0, 110_000)), 2, Some(100_000), true), (Some((0, 110_000)), true));
    assert_eq!(consider_release(Some((0, 50_000)), 2, Some(99_999), true), (Some((2, 99_999)), false));
}

#[test]
fn formats_that_tell_of_vinyl() {
    assert!(search_result_is_vinyl(&strings(&["CD", "Vinyl"])));
    assert!(search_result_is_vinyl(&strings(&["2xLP"])));
    assert!(search_result_is_vinyl(&strings(&["12\" Vinyl, Album"])));
    assert!(!search_result_is_vinyl(&strings(&["CD", "vinyl", "lp"])));
    assert!(!search_result_is_vinyl(&Vec::new()));
    assert!(version_is_vinyl(&strings(&["CD", "Vinyl"])));
    assert!(!version_is_vinyl(&strings(&["12\" Vinyl"])));
    assert!(!version_is_vinyl(&Vec::new()));
    assert!(is_on_vinyl(&vec![None, Some("12\" Vinyl".to_string())]));
    assert!(!is_on_vinyl(&vec![None, Some("CD".to_string())]));
    assert!(!is_on_vinyl(&Vec::new()));
    assert!(is_sure_match(80));
    assert!(!is_sure_match(79));
}

#[test]
fn failures_of_the_lookup_tool() {
    assert_eq!(classify_failure("Error: Decode error"), LookupOutcome::DecodeError);
    assert_eq!(classify_failure("expected value at line 1 column 1"), LookupOutcome::DecodeError);
    assert_eq!(classify_failure("decode"), LookupOutcome::Failed);
    assert_eq!(classify_failure(""), LookupOutcome::Failed);
    let (outcome, song) = classify_answer("{\"track\": {\"title\": \"Money\", \"subtitle\": \"Pink Floyd\"}}");
    assert_eq!(outcome, LookupOutcome::Recognized);
    let song = song.unwrap();
    assert_eq!((song.title.as_str(), song.artist.as_str()), ("Money", "Pink Floyd"));
    let (outcome, song) = classify_answer("{\"matches\": []}");
    assert_eq!(outcome, LookupOutcome::NoMatch);
    assert!(song.is_none());
    // An answer that is no JSON document names no song; it is not retried.
    let (outcome, song) = classify_answer("not json");
    assert_eq!(outcome, LookupOutcome::NoMatch);
    assert!(song.is_none());
}

#[test]
fn capture_devices_from_a_listing() {
    let line = "card 0: PCH [HDA Intel PCH], device 0: ALC269VC Analog [ALC269VC Analog]";
    let source = parse_arecord_line(line).unwrap();
    assert_eq!(source.backend, "alsa");
    assert_eq!(source.url, "alsa:hw:0,0");
    assert_eq!(source.description.as_deref(), Some("ALC269VC Analog"));
    let source = parse_arecord_line("card 12: x, device 3: y").unwrap();
    assert_eq!(source.url, "alsa:hw:12,3");
    assert_eq!(source.description, None);
    let source = parse_arecord_line("card +1: x [a, device 007: y").unwrap();
    assert_eq!(source.url, "alsa:hw:1,7");
    assert_eq!(source.description, None);
    assert_eq!(parse_arecord_line("card 1: x ]a[b], device 2: y").unwrap().description.as_deref(), Some("b"));
    assert!(parse_arecord_line("**** List of CAPTURE Hardware Devices ****").is_none());
    assert!(parse_arecord_line("  Subdevices: 1/1").is_none());
    assert!(parse_arecord_line(" card 0: x, device 0: y").is_none());
    assert!(parse_arecord_line("card 0: x").is_none());
    assert!(parse_arecord_line("card x: x, device 0: y").is_none());
    assert!(parse_arecord_line("card 0: x, device : y").is_none());
    assert!(parse_arecord_line("card 0 x, device 0 y").is_none());
    assert!(parse_arecord_line("card 4294967296: x, device 0: y").is_none());
    assert!(parse_arecord_line("card 0: x, device -1: y").is_none());
    assert!(parse_arecord_line("cards").is_none());
    assert!(parse_arecord_line("").is_none());

    let listing = "**** List of CAPTURE Hardware Devices ****\ncard 0: PCH [HDA Intel PCH], device 0: Analog [Analog]\n  Subdevices: 1/1\n  Subdevice #0: subdevice #0\ncard 2: USB [USB Audio], device 1: USB Audio [USB Audio #1]\n";
    let sources = discover_alsa_sources(listing);
    let urls: Vec<&str> = sources.iter().map(|s| s.url.as_str()).collect();
    assert_eq!(urls, vec!["alsa:default", "alsa:hw:0,0", "alsa:hw:2,1"]);
    assert_eq!(sources[0].description.as_deref(), Some("Default ALSA device"));
    assert_eq!(sources[2].description.as_deref(), Some("USB Audio #1"));
    assert!(sources.iter().all(|s| s.backend == "alsa"));
    let sources = discover_alsa_sources("");
    assert_eq!(sources.len(), 1);
    assert_eq!(sources[0].url, "alsa:default");
}

#[test]
fn audio_files_among_paths() {
    let source = file_source("./side a.WAV").unwrap();
    assert_eq!(source.backend, "file");
    assert_eq!(source.url, "file:./side a.WAV");
    assert_eq!(source.description.as_deref(), Some("Audio file: side a.WAV"));
    assert_eq!(file_source("music/b.flac").unwrap().description.as_deref(), Some("Audio file: b.flac"));
    assert_eq!(file_source("c.mp3").unwrap().description.as_deref(), Some("Audio file: c.mp3"));
    assert!(file_source("./notes.txt").is_none());
    assert!(file_source("./wav").is_none());
    assert!(file_source("").is_none());
    let sources = discover_file_sources(&strings(&["./a.wav", "./b.txt", "./c.Mp3", "./d.flac.bak"]));
    let urls: Vec<&str> = sources.iter().map(|s| s.url.as_str()).collect();
    assert_eq!(urls, vec!["file:./a.wav", "file:./c.Mp3"]);
    assert!(discover_file_sources(&Vec::new()).is_empty());
}

#[test]
fn first_place_of_a_text() {
    assert_eq!(index_of_text(&chars_of("a card and a card"), &chars_of("card")), 2);
    assert_eq!(index_of_text(&chars_of("card"), &chars_of("card")), 0);
    assert_eq!(index_of_text(&chars_of("car"), &chars_of("card")), 3);
    assert_eq!(index_of_text(&chars_of(""), &chars_of("card")), 0);
    assert_eq!(index_of_text(&chars_of("abc"), &chars_of("")), 0);
}

#[test]
fn ways_to_split_a_name() {
    let splits = search_splits(&strings(&["pink", "floyd", "the", "wall"]));
    let pairs: Vec<(&str, &str)> = splits.iter().map(|(a, r)| (a.as_str(), r.as_str())).collect();
    assert_eq!(pairs, vec![("pink", "floyd the wall"), ("pink floyd", "the wall"), ("pink floyd the", "wall")]);
    assert!(search_splits(&strings(&["pink"])).is_empty());
    assert!(search_splits(&Vec::new()).is_empty());
    let splits = search_splits(&strings(&["a", ""]));
    assert_eq!(splits, vec![("a".to_string(), "".to_string())]);
}

fn song(artist: &str, title: &str) -> IdentifiedSong {
    IdentifiedSong { timestamp_us: 0, title: title.to_string(), artist: artist.to_string(), album: None }
}

#[test]
fn songs_to_search_for() {
    let songs = vec![
        song("Pink Floyd", "Money"),
        song("pink floyd", "MONEY"),
        song("Pink Floyd", "Time"),
        song("Floyd", "Money"),
        song("PINK FLOYD", "time"),
    ];
    assert_eq!(unique_songs(&songs), vec![0, 2, 3]);
    assert!(unique_songs(&Vec::new()).is_empty());
}

fn dtrack(position: &str, title: &str) -> DiscogsTrack {
    DiscogsTrack { position: position.to_string(), side: 'A', title: title.to_string(), duration_us: 0 }
}

fn side(label: char, tracks: Vec<DiscogsTrack>) -> DiscogsSide {
    DiscogsSide { label, tracks, total_duration_us: 0 }
}

fn etrack(position: u32, title: &str, length_s: u64) -> ExpectedTrack {
    ExpectedTrack { position, title: title.to_string(), length_us: length_s * 1_000_000, expected_start_us: 77 }
}

fn shape(tracks: &[ExpectedTrack]) -> Vec<(u32, &str, u64, u64)> {
    tracks
        .iter()
        .map(|t| (t.position, t.title.as_str(), t.length_us / 1_000_000, t.expected_start_us / 1_000_000))
        .collect()
}

#[test]
fn lengths_from_another_listing() {
    let sides = vec![
        side('A', vec![dtrack("A1", "Speak to Me"), dtrack("A2", "Breathe"), dtrack("A3", "Any Colour")]),
        side('C', Vec::new()),
        side('B', vec![dtrack("B1", "Money"), dtrack("B12", "Us and Them")]),
    ];
    let listing = vec![
        etrack(1, "Speak To Me", 90),
        etrack(2, "Breathe (In The Air)", 163),
        etrack(3, "Money", 382),
        etrack(4, "Us And Them", 469),
    ];
    let enriched = enrich_release(&sides, &listing).unwrap();
    assert_eq!(enriched.len(), 2);
    assert_eq!(enriched[0].0, 'A');
    assert_eq!(shape(&enriched[0].1), vec![(1, "Speak to Me", 90, 0), (2, "Breathe", 163, 90), (3, "Any Colour", 0, 253)]);
    assert_eq!(enriched[1].0, 'B');
    assert_eq!(shape(&enriched[1].1), vec![(1, "Money", 382, 0), (12, "Us and Them", 469, 382)]);

    // Fewer than half of the titles are found.
    let poor = vec![etrack(1, "Money", 382)];
    assert!(enrich_release(&sides, &poor).is_none());
    // The listing knows no length.
    let silent: Vec<ExpectedTrack> = listing.iter().map(|t| etrack(t.position, &t.title, 0)).collect();
    assert!(enrich_release(&sides, &silent).is_none());
    assert!(enrich_release(&Vec::new(), &listing).is_none());
    assert!(enrich_release(&sides, &Vec::new()).is_none());

    let matched = vec![Some(1), None, Some(0)];
    let one = enrich_side(&sides[2], &listing, &matched, 1).unwrap();
    assert_eq!(shape(&one), vec![(1, "Money", 0, 0), (12, "Us and Them", 90, 0)]);
    assert!(enrich_side(&sides[2], &listing, &matched, 2).is_none());
    assert!(enrich_side(&sides[2], &listing, &matched, 4).is_none());
    let huge = vec![
        ExpectedTrack { position: 1, title: "a".to_string(), length_us: u64::MAX, expected_start_us: 0 },
        ExpectedTrack { position: 2, title: "b".to_string(), length_us: 1, expected_start_us: 0 },
    ];
    let three = side('A', vec![dtrack("A1", "a"), dtrack("A2", "b"), dtrack("A3", "c")]);
    assert!(enrich_side(&three, &huge, &vec![Some(0), Some(1), None], 0).is_none());
    assert!(enrich_side(&sides[2], &huge, &vec![Some(0), Some(1)], 0).is_none());
    assert!(enrich_side(&sides[2], &huge, &vec![Some(0), None], 0).is_some());
    assert_eq!(number_of_track("B12"), 12);
    assert_eq!(number_of_track("A"), 0);
    assert_eq!(number_of_track("1a2"), 12);
}

fn assigned(label: char, tracks: Vec<ExpectedTrack>, backend: &str) -> FileSideResult {
    file_result(autorec::lookup::FileSideResult {
        path: "side.wav".to_string(),
        artist: "Pink Floyd".to_string(),
        album_title: "The Dark Side of the Moon".to_string(),
        release_info: "https://www.discogs.com/release/1".to_string(),
        side_label: label,
        tracks,
        backend: backend.to_string(),
        score: 5,
    })
}

#[test]
fn results_take_the_lengths_found() {
    let bare = assigned('A', vec![etrack(1, "Speak to Me", 0)], "Discogs");
    let timed = assigned('B', vec![etrack(1, "Money", 382)], "Discogs");
    let none = assigned('?', Vec::new(), "Discogs (no side matched)");
    assert_eq!(bare.path, "side.wav");
    assert_eq!(bare.release_info, "https://www.discogs.com/release/1");
    assert!(needs_enrichment(&vec![timed.clone(), bare.clone()]));
    assert!(!needs_enrichment(&vec![timed.clone(), none.clone()]));
    assert!(!needs_enrichment(&Vec::new()));
    assert!(any_assigned(&vec![none.clone(), bare.clone()]));
    assert!(!any_assigned(&vec![none.clone()]));
    assert!(!any_assigned(&Vec::new()));

    let enriched = vec![
        ('A', vec![etrack(1, "Speak to Me", 90)]),
        ('?', vec![etrack(1, "Bonus", 10)]),
        ('A', vec![etrack(1, "Other", 1)]),
    ];
    let better = with_enriched(bare.clone(), &enriched);
    assert_eq!(better.backend, "Discogs + MusicBrainz (durations)");
    assert_eq!(shape(&better.tracks), vec![(1, "Speak to Me", 90, 0)]);
    assert_eq!((better.side_label, better.artist.as_str()), ('A', "Pink Floyd"));
    let same = with_enriched(timed.clone(), &enriched);
    assert_eq!(same.backend, "Discogs");
    assert_eq!(same.tracks[0].length_us, 382_000_000);
    let still_none = with_enriched(none.clone(), &enriched);
    assert_eq!(still_none.backend, "Discogs (no side matched)");
    assert!(still_none.tracks.is_empty());
    assert_eq!(with_enriched(bare, &Vec::new()).backend, "Discogs");
}
