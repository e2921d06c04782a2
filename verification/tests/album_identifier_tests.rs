use autorec::album_identifier::{
    after_lookup, after_retry, deduplicate_songs, generate_default_timestamps,
    identification_timestamps, identify_album_from_songs, parse_songrec_output, rank_by_frequency,
    wav_duration_us, IdentifiedSong, IdentifyError, LookupOutcome, LookupStep, SongrecError,
};
use autorec::json::JsonValue;
use autorec::rate_limiter::RateLimiter;
use autorec::shazam::{
    devices, pick_device, recognize_url, recognize_url_for, search_track_url, track_about_url,
    urlencoding, RecognizeResult,
};
use autorec::wavfile::WavHeader;

fn song(t: u64, artist: &str, title: &str, album: Option<&str>) -> IdentifiedSong {
    IdentifiedSong {
        timestamp_us: t * 1_000_000,
        title: title.to_string(),
        artist: artist.to_string(),
        album: album.map(|a| a.to_string()),
    }
}

const RESPONSE: &str = r#"{
  "matches": [],
  "track": {
    "key": "5933917",
    "title": "Money",
    "subtitle": "Pink Floyd",
    "images": {"coverart": "small", "coverarthq": "https://img/hq.jpg"},
    "sections": [
      {"type": "LYRICS", "metadata": [{"title": "Album", "text": "Wrong"}]},
      {"type": "SONG", "metadata": [
        {"title": "Label", "text": "Harvest"},
        {"title": "Album", "text": "The Dark Side of the Moon"},
        {"title": "Album", "text": "Second"}
      ]},
      {"type": "SONG", "metadata": [{"title": "Album", "text": "Third"}]}
    ]
  }
}"#;

#[test]
fn song_is_read_from_a_response() {
    let found = parse_songrec_output(RESPONSE).unwrap();
    assert_eq!(found.title, "Money");
    assert_eq!(found.artist, "Pink Floyd");
    assert_eq!(found.album, Some("The Dark Side of the Moon".to_string()));
    assert_eq!(found.timestamp_us, 0);
    let plain = parse_songrec_output(r#"{"track": {"title": "T", "subtitle": "A"}}"#).unwrap();
    assert_eq!((plain.title.as_str(), plain.artist.as_str(), plain.album), ("T", "A", None));
    // The first section of the song decides, with or without an album.
    let none = parse_songrec_output(
        r#"{"track": {"title": "T", "subtitle": "A", "sections": [{"type": "SONG"}, {"type": "SONG", "metadata": [{"title": "Album", "text": "X"}]}]}}"#,
    )
    .unwrap();
    assert_eq!(none.album, None);
    let none = parse_songrec_output(
        r#"{"track": {"title": "T", "subtitle": "A", "sections": {"type": "SONG"}}}"#,
    )
    .unwrap();
    assert_eq!(none.album, None);
}

#[test]
fn responses_without_a_song() {
    assert_eq!(parse_songrec_output("not json").unwrap_err(), SongrecError::InvalidJson);
    assert_eq!(parse_songrec_output("").unwrap_err(), SongrecError::InvalidJson);
    assert_eq!(parse_songrec_output(r#"{"matches": []}"#).unwrap_err(), SongrecError::NoTrack);
    assert_eq!(parse_songrec_output("[1, 2]").unwrap_err(), SongrecError::NoTrack);
    assert_eq!(
        parse_songrec_output(r#"{"track": {"subtitle": "A"}}"#).unwrap_err(),
        SongrecError::NoTitle
    );
    assert_eq!(
        parse_songrec_output(r#"{"track": {"title": 5, "subtitle": "A"}}"#).unwrap_err(),
        SongrecError::NoTitle
    );
    assert_eq!(
        parse_songrec_output(r#"{"track": {"title": "T"}}"#).unwrap_err(),
        SongrecError::NoArtist
    );
    assert_eq!(parse_songrec_output(r#"{"track": "x"}"#).unwrap_err(), SongrecError::NoTitle);
}

#[test]
fn default_schedule() {
    let s = 1_000_000u64;
    assert_eq!(
        generate_default_timestamps(1000 * s, 60 * s, 240 * s),
        vec![60 * s, 300 * s, 540 * s, 780 * s]
    );
    // A point exactly 30 s before the end is not taken.
    assert_eq!(generate_default_timestamps(330 * s, 60 * s, 240 * s), vec![60 * s]);
    assert_eq!(generate_default_timestamps(330 * s + 1, 60 * s, 240 * s), vec![60 * s, 300 * s]);
    // The first point is always there.
    assert_eq!(generate_default_timestamps(0, 60 * s, 240 * s), vec![60 * s]);
    assert_eq!(generate_default_timestamps(1800 * s, 60 * s, 120 * s).len(), 15);
    assert_eq!(generate_default_timestamps(u64::MAX, u64::MAX, u64::MAX), vec![u64::MAX]);
}

#[test]
fn short_recording_is_refused() {
    let header = |seconds_times_ten: u32| WavHeader {
        sample_rate: 48000,
        num_channels: 2,
        bits_per_sample: 16,
        data_size: 19200 * seconds_times_ten,
    };
    assert_eq!(wav_duration_us(&header(99)), Some(9_900_000));
    assert_eq!(identification_timestamps(&header(99), None), Err(IdentifyError::TooShort(9_900_000)));
    assert_eq!(identification_timestamps(&header(0), None), Err(IdentifyError::TooShort(0)));
    assert_eq!(identification_timestamps(&header(100), None), Ok(vec![60_000_000]));
    assert_eq!(
        identification_timestamps(&header(6000), None),
        Ok(vec![60_000_000, 300_000_000, 540_000_000])
    );
    // A short recording is refused with requested points too.
    assert_eq!(
        identification_timestamps(&header(1), Some(vec![5, 7])),
        Err(IdentifyError::TooShort(100_000))
    );
    assert_eq!(
        identification_timestamps(&header(99), Some(Vec::new())),
        Err(IdentifyError::TooShort(9_900_000))
    );
    // From ten seconds on, requested points are taken as they are.
    assert_eq!(identification_timestamps(&header(100), Some(vec![5, 7])), Ok(vec![5, 7]));
    assert_eq!(identification_timestamps(&header(6000), Some(Vec::new())), Ok(Vec::new()));
    let broken = WavHeader { sample_rate: 0, num_channels: 2, bits_per_sample: 16, data_size: 5 };
    assert_eq!(wav_duration_us(&broken), None);
    assert_eq!(identification_timestamps(&broken, None), Err(IdentifyError::NoByteRate));
    // Without a byte rate no duration can be told: requested points are taken.
    assert_eq!(identification_timestamps(&broken, Some(vec![5])), Ok(vec![5]));
    let broken = WavHeader { sample_rate: 48000, num_channels: 2, bits_per_sample: 7, data_size: 5 };
    assert_eq!(identification_timestamps(&broken, None), Err(IdentifyError::NoByteRate));
}

#[test]
fn most_common_album_and_artist() {
    let songs = vec![
        song(60, "Pink Floyd", "Money", Some("The Dark Side of the Moon")),
        song(300, "Pink Floyd", "Time", Some("Greatest Hits")),
        song(540, "Floyd", "Us and Them", None),
        song(780, "Pink Floyd", "Breathe", Some("The Dark Side of the Moon")),
    ];
    let info = identify_album_from_songs(&songs).unwrap();
    assert_eq!(info.album_title, "The Dark Side of the Moon");
    assert_eq!(info.album_artist, "Pink Floyd");
    assert_eq!(info.album_candidates, vec!["The Dark Side of the Moon", "Greatest Hits"]);
    assert_eq!(info.confidence_permille, 500);
    assert_eq!(info.songs.len(), 4);
    assert_eq!(info.songs[2].title, "Us and Them");
    assert_eq!(info.log, "");
}

#[test]
fn ties_go_to_the_first_seen() {
    let songs = vec![
        song(60, "B", "1", Some("Second Album")),
        song(300, "A", "2", Some("First Album")),
        song(540, "A", "3", Some("Second Album")),
        song(780, "B", "4", Some("First Album")),
    ];
    let info = identify_album_from_songs(&songs).unwrap();
    assert_eq!(info.album_title, "Second Album");
    assert_eq!(info.album_artist, "B");
    assert_eq!(info.album_candidates, vec!["Second Album", "First Album"]);
    assert_eq!(info.confidence_permille, 500);
    // No album at all.
    let info = identify_album_from_songs(&vec![song(60, "A", "1", None)]).unwrap();
    assert_eq!(info.album_title, "Unknown Album");
    assert!(info.album_candidates.is_empty());
    assert_eq!(info.confidence_permille, 0);
    assert_eq!(identify_album_from_songs(&Vec::new()).unwrap_err(), IdentifyError::NoSongs);
    let thirds = vec![song(1, "A", "1", Some("X")), song(2, "A", "2", None), song(3, "A", "3", None)];
    assert_eq!(identify_album_from_songs(&thirds).unwrap().confidence_permille, 333);
}

#[test]
fn names_by_frequency() {
    let names: Vec<Vec<char>> =
        ["b", "a", "c", "a", "b", "c", "c", "d"].iter().map(|s| s.chars().collect()).collect();
    let ranked: Vec<String> = rank_by_frequency(&names).iter().map(|w| w.iter().collect()).collect();
    assert_eq!(ranked, vec!["c", "b", "a", "d"]);
    assert!(rank_by_frequency(&Vec::new()).is_empty());
}

#[test]
fn repeated_hits_are_dropped() {
    let songs = vec![
        song(60, "A", "One", None),
        song(300, "A", "One", Some("X")),
        song(540, "A", "Two", None),
        song(780, "B", "Two", None),
        song(900, "B", "Two", None),
        song(1000, "A", "One", None),
    ];
    let kept = deduplicate_songs(&songs);
    let times: Vec<u64> = kept.iter().map(|s| s.timestamp_us / 1_000_000).collect();
    assert_eq!(times, vec![60, 540, 780, 1000]);
    assert!(deduplicate_songs(&Vec::new()).is_empty());
}

#[test]
fn decode_error_is_retried_and_backs_off() {
    let mut limiter = RateLimiter::from_secs("songrec", 5);
    assert_eq!(after_lookup(&mut limiter, LookupOutcome::Recognized), LookupStep::Settled { found: true });
    assert_eq!(after_lookup(&mut limiter, LookupOutcome::NoMatch), LookupStep::Settled { found: false });
    assert_eq!(after_lookup(&mut limiter, LookupOutcome::Failed), LookupStep::Settled { found: false });
    assert_eq!(limiter.success_count, 3);
    assert_eq!(after_lookup(&mut limiter, LookupOutcome::DecodeError), LookupStep::RetryAfter(30_000_000));
    assert_eq!((limiter.success_count, limiter.current_interval), (3, 5000));
    assert!(after_retry(&mut limiter, LookupOutcome::Recognized));
    assert_eq!((limiter.success_count, limiter.current_interval), (0, 10000));
    assert!(!after_retry(&mut limiter, LookupOutcome::DecodeError));
    assert_eq!(limiter.current_interval, 20000);
    assert!(!after_retry(&mut limiter, LookupOutcome::NoMatch));
    assert_eq!(limiter.current_interval, 40000);
}

#[test]
fn answer_of_the_service() {
    let doc = autorec_json(RESPONSE);
    let result = RecognizeResult::from_json(&doc);
    assert!(result.is_recognized());
    assert_eq!(result.title, Some("Money".to_string()));
    assert_eq!(result.artist, Some("Pink Floyd".to_string()));
    assert_eq!(result.album, Some("The Dark Side of the Moon".to_string()));
    assert_eq!(result.track_id, Some("5933917".to_string()));
    assert_eq!(result.cover_art, Some("https://img/hq.jpg".to_string()));
    assert_eq!(result.describe(), "Pink Floyd \u{2014} Money");
    let result = RecognizeResult::from_json(&autorec_json(r#"{"track": {"title": "T"}}"#));
    assert_eq!(result.describe(), "T");
    let result = RecognizeResult::from_json(&autorec_json(r#"{"matches": []}"#));
    assert!(!result.is_recognized());
    assert_eq!(result.describe(), "(not recognized)");
    assert_eq!((result.artist, result.album, result.track_id, result.cover_art), (None, None, None, None));
}

fn tree(v: &serde_json::Value) -> JsonValue {
    match v {
        serde_json::Value::Null => JsonValue::Null,
        serde_json::Value::Bool(b) => JsonValue::Bool(*b),
        serde_json::Value::Number(n) => JsonValue::Number(n.to_string()),
        serde_json::Value::String(s) => JsonValue::Text(s.clone()),
        serde_json::Value::Array(a) => JsonValue::Array(a.iter().map(tree).collect()),
        serde_json::Value::Object(o) => {
            JsonValue::Object(o.iter().map(|(k, v)| (k.clone(), tree(v))).collect())
        },
    }
}

/// Builds the tree of a document by hand, as the parser would.
fn autorec_json(text: &str) -> JsonValue {
    tree(&serde_json::from_str::<serde_json::Value>(text).unwrap())
}

#[test]
fn json_tree_lookups() {
    let doc = autorec_json(r#"{"a": {"b": "x", "n": 12, "l": [1, "two", null, true]}, "s": "t"}"#);
    assert_eq!(doc.get_str("s"), Some("t"));
    assert_eq!(doc.get_str("a"), None);
    assert_eq!(doc.get_str("missing"), None);
    let a = doc.get("a").unwrap();
    assert_eq!(a.get_str("b"), Some("x"));
    assert!(matches!(a.get("n"), Some(JsonValue::Number(n)) if n == "12"));
    let list = a.get("l").unwrap().as_array().unwrap();
    assert_eq!(list.len(), 4);
    assert_eq!(list[1].as_str(), Some("two"));
    assert!(list[0].as_str().is_none() && list[0].get("x").is_none() && list[0].as_array().is_none());
    assert!(doc.as_array().is_none());
}

#[test]
fn query_escaping() {
    assert_eq!(urlencoding("a b&c=d+e#f%g"), "a%20b%26c%3Dd%2Be%23f%25g");
    assert_eq!(urlencoding(""), "");
    assert_eq!(urlencoding("plain/text?"), "plain/text?");
}

#[test]
fn service_addresses() {
    assert_eq!(
        recognize_url_for("en-US", "GB", "iphone", "ab12-cd", "ef-34"),
        "https://amp.shazam.com/discovery/v5/en-US/GB/iphone/-/tag/AB12-CD/EF-34?sync=true&webv3=true&sampling=true&connected=&shazamapiversion=v3&sharehub=true&hubv5minorversion=v5.1&hidelb=true&video=v3"
    );
    assert_eq!(
        track_about_url("en-US", "GB", "5933917"),
        "https://www.shazam.com/discovery/v5/en-US/GB/web/-/track/5933917?shazamapiversion=v3&video=v3"
    );
    assert_eq!(
        search_track_url("en-US", "GB", "pink floyd", 10, 0),
        "https://www.shazam.com/services/search/v3/en-US/GB/web/search?query=pink%20floyd&numResults=10&offset=0&types=songs"
    );
    assert_eq!(devices(), vec!["iphone", "android", "web"]);
    for _ in 0..20 {
        assert!(devices().contains(&pick_device()));
        let url = recognize_url("de-DE", "DE");
        let prefix = "https://amp.shazam.com/discovery/v5/de-DE/DE/";
        assert!(url.starts_with(prefix));
        let rest: Vec<&str> = url[prefix.len()..].split('/').collect();
        assert!(devices().contains(&rest[0]));
        assert_eq!((rest[1], rest[2]), ("-", "tag"));
        assert_eq!(rest[3].len(), 36);
        assert_eq!(rest[3], rest[3].to_uppercase());
        assert!(rest[4].starts_with(|c: char| c.is_ascii_hexdigit()));
        assert_ne!(rest[3], &rest[4][..36]);
    }
}
