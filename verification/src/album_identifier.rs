//! Songs identified in a recording, and the album they point to.
//!
//! Times are in microseconds. A song is identified by looking up a segment
//! of the recording with a fingerprint service; the service answers in
//! JSON.

use crate::json::{parse_json, json_document, JsonValue};
use crate::rate_limiter::RateLimiter;
use crate::text::{chars_of, contains, contains_text, same_chars, string_of, texts_of};
use crate::wavfile::WavHeader;
use vstd::prelude::*;
use vstd::string::StringExecFns;

verus! {

/// A song identified at one point of a recording.
#[derive(Clone, Debug)]
pub struct IdentifiedSong {
    /// Where in the recording the song was heard.
    pub timestamp_us: u64,
    /// Title of the song.
    pub title: String,
    /// Artist of the song.
    pub artist: String,
    /// Album of the song, where the service names one.
    pub album: Option<String>,
}

/// The album that the songs of a recording point to.
#[derive(Clone, Debug)]
pub struct AlbumInfo {
    /// Title of the most frequent album.
    pub album_title: String,
    /// The most frequent artist.
    pub album_artist: String,
    /// All albums named, the most frequent first.
    pub album_candidates: Vec<String>,
    /// The songs that were identified.
    pub songs: Vec<IdentifiedSong>,
    /// Share of the songs that name the most frequent album, in
    /// thousandths.
    pub confidence_permille: u32,
    /// What happened during identification.
    pub log: String,
}

/// Songs identified in a recording, with the log of the identification.
#[derive(Clone, Debug)]
pub struct IdentificationResult {
    /// The songs that were identified.
    pub songs: Vec<IdentifiedSong>,
    /// What happened during identification.
    pub log: String,
}

/// Margin kept between the last lookup and the end of the recording.
pub const END_MARGIN_US: u64 = 30_000_000;

/// Length of the segment that is looked up.
pub const SEGMENT_US: u64 = 30_000_000;

/// Shortest recording that is looked up at all.
pub const MIN_RECORDING_US: u64 = 10_000_000;

/// First point of the default schedule.
pub const DEFAULT_FIRST_US: u64 = 60_000_000;

/// Step of the default schedule.
pub const DEFAULT_INTERVAL_US: u64 = 240_000_000;

/// Pause before a lookup that failed to decode is tried once more.
pub const RETRY_DELAY_US: u64 = 30_000_000;

/// Shortest time, in milliseconds, between two lookups at the fingerprint
/// service.
pub const FINGERPRINT_INTERVAL_MS: u64 = 5000;

/// `points` is the schedule for a recording of `duration_us`: it starts
/// at `first_us`, goes on in steps of `interval_us`, and holds every
/// further point that lies more than the end margin before the end, and
/// no other.
pub open spec fn is_schedule(points: Seq<u64>, duration_us: int, first_us: int, interval_us: int) -> bool {
    &&& points.len() >= 1
    &&& forall|k: int| 0 <= k < points.len() ==> #[trigger] points[k] == first_us + k * interval_us
    &&& forall|k: int|
        1 <= k < points.len() ==> (#[trigger] points[k]) + END_MARGIN_US < duration_us
    &&& first_us + points.len() * interval_us + END_MARGIN_US >= duration_us
}

/// Returns the points at which a recording is looked up: `first_us`, and
/// from there every `interval_us` as long as more than 30 seconds are left
/// to the end.
pub fn generate_default_timestamps(duration_us: u64, first_us: u64, interval_us: u64) -> (r: Vec<
    u64,
>)
    requires
        interval_us > 0,
    ensures
        is_schedule(r@, duration_us as int, first_us as int, interval_us as int),
{
    let mut points: Vec<u64> = Vec::new();
    points.push(first_us);
    let mut current: u128 = first_us as u128 + interval_us as u128;
    assert(1 * interval_us == interval_us) by (nonlinear_arith);
    assert(0 * interval_us == 0) by (nonlinear_arith);
    while current + (END_MARGIN_US as u128) < duration_us as u128
        invariant
            interval_us > 0,
            points@.len() >= 1,
            current == first_us + points@.len() * interval_us,
            current <= 0x2_0000_0000_0000_0000,
            forall|k: int|
                0 <= k < points@.len() ==> #[trigger] points@[k] == first_us + k * interval_us,
            forall|k: int|
                1 <= k < points@.len() ==> (#[trigger] points@[k]) + END_MARGIN_US < duration_us,
        decreases
                if current < duration_us {
                    duration_us - current
                } else {
                    0
                },
    {
        let ghost n = points@.len() as int;
        assert((n + 1) * interval_us == n * interval_us + interval_us) by (nonlinear_arith);
        points.push(current as u64);
        current = current + interval_us as u128;
    }
    points
}

/// Why a recording cannot be looked up.
#[derive(Clone, Copy, Debug, PartialEq, Eq, Structural)]
pub enum IdentifyError {
    /// The recording is shorter than ten seconds; its duration is given in
    /// microseconds.
    TooShort(u64),
    /// The header describes audio without a byte rate.
    NoByteRate,
    /// No song could be identified.
    NoSongs,
}

/// Bytes that one second of the audio of `h` takes.
pub open spec fn bytes_per_second(h: WavHeader) -> int {
    h.sample_rate * h.num_channels * (h.bits_per_sample / 8)
}

/// Duration of the audio of `h`, rounded down.
pub open spec fn duration_of(h: WavHeader) -> int {
    h.data_size * 1_000_000 / bytes_per_second(h)
}

/// Returns the duration of the audio that `header` describes, where it
/// has a byte rate.
pub fn wav_duration_us(header: &WavHeader) -> (r: Option<u64>)
    ensures
        match r {
            Some(d) => bytes_per_second(*header) > 0 && d == duration_of(*header),
            None => bytes_per_second(*header) == 0,
        },
{
    let width: u64 = (header.bits_per_sample / 8) as u64;
    assert(header.num_channels * width <= 0xffff * 0x1fff) by (nonlinear_arith)
        requires
            0 <= header.num_channels <= 0xffff,
            0 <= width <= 0x1fff,
    ;
    let frame: u64 = header.num_channels as u64 * width;
    assert(header.sample_rate * frame <= 0xffff_ffff * (0xffff * 0x1fff)) by (nonlinear_arith)
        requires
            0 <= header.sample_rate <= 0xffff_ffff,
            0 <= frame <= 0xffff * 0x1fff,
    ;
    let rate: u64 = header.sample_rate as u64 * frame;
    assert(rate == bytes_per_second(*header)) by (nonlinear_arith)
        requires
            rate == header.sample_rate * frame,
            frame == header.num_channels * width,
            width == header.bits_per_sample / 8,
    ;
    if rate == 0 {
        return None;
    }
    let scaled: u64 = header.data_size as u64 * 1_000_000;
    Some(scaled / rate)
}

/// The recording that `h` describes is shorter than ten seconds. Of a
/// header without a byte rate no duration can be told, so it is not.
pub open spec fn is_too_short(h: WavHeader) -> bool {
    bytes_per_second(h) > 0 && duration_of(h) < MIN_RECORDING_US
}

/// Chooses the points at which a recording is looked up: the requested
/// ones, or the default schedule for its duration.
///
/// A recording shorter than ten seconds is refused, whether points are
/// requested or not. A header without a byte rate tells no duration: the
/// requested points are taken for it as they are, and without a request
/// it is refused, since no schedule can be made.
pub fn identification_timestamps(header: &WavHeader, requested: Option<Vec<u64>>) -> (r: Result<
    Vec<u64>,
    IdentifyError,
>)
    ensures
        is_too_short(*header) ==> r == Err::<Vec<u64>, IdentifyError>(
            IdentifyError::TooShort(duration_of(*header) as u64),
        ),
        !is_too_short(*header) ==> match requested {
            Some(points) => r == Ok::<Vec<u64>, IdentifyError>(points),
            None => if bytes_per_second(*header) == 0 {
                r == Err::<Vec<u64>, IdentifyError>(IdentifyError::NoByteRate)
            } else {
                r matches Ok(points) && is_schedule(
                    points@,
                    duration_of(*header),
                    DEFAULT_FIRST_US as int,
                    DEFAULT_INTERVAL_US as int,
                )
            },
        },
{
    match wav_duration_us(header) {
        Some(duration) => {
            if duration < MIN_RECORDING_US {
                Err(IdentifyError::TooShort(duration))
            } else {
                match requested {
                    Some(points) => Ok(points),
                    None => Ok(
                        generate_default_timestamps(
                            duration,
                            DEFAULT_FIRST_US,
                            DEFAULT_INTERVAL_US,
                        ),
                    ),
                }
            }
        },
        None => match requested {
            Some(points) => Ok(points),
            None => Err(IdentifyError::NoByteRate),
        },
    }
}

/// Why a response of the fingerprint service names no song.
#[derive(Clone, Copy, Debug, PartialEq, Eq, Structural)]
pub enum SongrecError {
    /// The response is no JSON document.
    InvalidJson,
    /// The response has no member `track`.
    NoTrack,
    /// The track has no title.
    NoTitle,
    /// The track has no artist.
    NoArtist,
}

/// Index of the first element of `items[from..]` whose member `key` is
/// the string `value`; the length where there is none.
pub open spec fn tagged_index(items: Seq<JsonValue>, key: Seq<char>, value: Seq<char>, from: int) -> int
    decreases items.len() - from,
{
    if from < 0 || from >= items.len() {
        items.len() as int
    } else if items[from].member_text(key) == Some(value) {
        from
    } else {
        tagged_index(items, key, value, from + 1)
    }
}

/// The first element of an array whose member `key` is the string
/// `value`.
pub open spec fn tagged(list: JsonValue, key: Seq<char>, value: Seq<char>) -> Option<JsonValue> {
    match list.elements() {
        Some(items) => {
            let i = tagged_index(items, key, value, 0);
            if i < items.len() {
                Some(items[i])
            } else {
                None
            }
        },
        None => None,
    }
}

/// The album that a track names: the text of the entry titled `Album`
/// among the metadata of its first section of type `SONG`.
pub open spec fn album_of(track: JsonValue) -> Option<Seq<char>> {
    match track.member("sections"@) {
        Some(sections) => match tagged(sections, "type"@, "SONG"@) {
            Some(section) => match section.member("metadata"@) {
                Some(metadata) => match tagged(metadata, "title"@, "Album"@) {
                    Some(item) => item.member_text("text"@),
                    None => None,
                },
                None => None,
            },
            None => None,
        },
        None => None,
    }
}

/// `song` is what the response `doc` names: the title and the subtitle of
/// its track, and the album where it names one. The time is left at 0.
pub open spec fn names_song(doc: JsonValue, song: IdentifiedSong) -> bool {
    doc.member("track"@) matches Some(track) && {
        &&& track.member_text("title"@) == Some(song.title@)
        &&& track.member_text("subtitle"@) == Some(song.artist@)
        &&& match song.album {
            Some(a) => album_of(track) == Some(a@),
            None => album_of(track) is None,
        }
        &&& song.timestamp_us == 0
    }
}

/// Why `doc` names no song, if it names none.
pub open spec fn song_error(doc: JsonValue) -> Option<SongrecError> {
    match doc.member("track"@) {
        None => Some(SongrecError::NoTrack),
        Some(track) => if track.member_text("title"@) is None {
            Some(SongrecError::NoTitle)
        } else if track.member_text("subtitle"@) is None {
            Some(SongrecError::NoArtist)
        } else {
            None
        },
    }
}

#[verifier::loop_isolation(false)]
fn find_tagged<'a>(list: &'a JsonValue, key: &str, value: &str) -> (r: Option<&'a JsonValue>)
    ensures
        match r {
            Some(v) => tagged(*list, key@, value@) == Some(*v),
            None => tagged(*list, key@, value@) is None,
        },
{
    match list.as_array() {
        Some(items) => {
            let wanted = chars_of(value);
            let mut i: usize = 0;
            while i < items.len()
                invariant
                    i <= items.len(),
                    tagged_index(items@, key@, value@, 0) == tagged_index(
                        items@,
                        key@,
                        value@,
                        i as int,
                    ),
                decreases items.len() - i,
            {
                let is_it: bool = match items[i].get_str(key) {
                    Some(s) => {
                        let chars = chars_of(s);
                        same_chars(&chars, &wanted)
                    },
                    None => false,
                };
                if is_it {
                    assert(tagged_index(items@, key@, value@, i as int) == i);
                    return Some(&items[i]);
                }
                i += 1;
            }
            None
        },
        None => None,
    }
}

/// Returns the album that a track names.
pub fn song_album(track: &JsonValue) -> (r: Option<String>)
    ensures
        match r {
            Some(a) => album_of(*track) == Some(a@),
            None => album_of(*track) is None,
        },
{
    let sections = match track.get("sections") {
        Some(v) => v,
        None => {
            return None;
        },
    };
    let section = match find_tagged(sections, "type", "SONG") {
        Some(v) => v,
        None => {
            return None;
        },
    };
    let metadata = match section.get("metadata") {
        Some(v) => v,
        None => {
            return None;
        },
    };
    let item = match find_tagged(metadata, "title", "Album") {
        Some(v) => v,
        None => {
            return None;
        },
    };
    match item.get_str("text") {
        Some(s) => Some(String::from_str(s)),
        None => None,
    }
}

/// Reads the song that a response of the fingerprint service names.
pub fn song_from_json(doc: &JsonValue) -> (r: Result<IdentifiedSong, SongrecError>)
    ensures
        match r {
            Ok(song) => song_error(*doc) is None && names_song(*doc, song),
            Err(e) => song_error(*doc) == Some(e),
        },
{
    let track = match doc.get("track") {
        Some(v) => v,
        None => {
            return Err(SongrecError::NoTrack);
        },
    };
    let title = match track.get_str("title") {
        Some(s) => String::from_str(s),
        None => {
            return Err(SongrecError::NoTitle);
        },
    };
    let artist = match track.get_str("subtitle") {
        Some(s) => String::from_str(s),
        None => {
            return Err(SongrecError::NoArtist);
        },
    };
    let album = song_album(track);
    Ok(IdentifiedSong { timestamp_us: 0, title, artist, album })
}

/// Reads the song that the text of a response names.
pub fn parse_songrec_output(json_str: &str) -> (r: Result<IdentifiedSong, SongrecError>)
    ensures
        match json_document(json_str@) {
            None => r == Err::<IdentifiedSong, SongrecError>(SongrecError::InvalidJson),
            Some(doc) => match r {
                Ok(song) => song_error(doc) is None && names_song(doc, song),
                Err(e) => song_error(doc) == Some(e),
            },
        },
{
    match parse_json(json_str) {
        None => Err(SongrecError::InvalidJson),
        Some(doc) => song_from_json(&doc),
    }
}

/// Copies a song.
pub fn copy_song(song: &IdentifiedSong) -> (r: IdentifiedSong)
    ensures
        r == *song,
{
    IdentifiedSong {
        timestamp_us: song.timestamp_us,
        title: song.title.clone(),
        artist: song.artist.clone(),
        album: match &song.album {
            Some(a) => Some(a.clone()),
            None => None,
        },
    }
}

/// Two songs are the same hit: same artist, same title.
pub open spec fn same_hit(a: IdentifiedSong, b: IdentifiedSong) -> bool {
    a.artist@ == b.artist@ && a.title@ == b.title@
}

/// The songs `songs[..upto]` without those that repeat the hit before
/// them.
pub open spec fn without_repeats(songs: Seq<IdentifiedSong>, upto: int) -> Seq<IdentifiedSong>
    decreases upto,
{
    if upto <= 0 {
        Seq::empty()
    } else if upto >= 2 && same_hit(songs[upto - 2], songs[upto - 1]) {
        without_repeats(songs, upto - 1)
    } else {
        without_repeats(songs, upto - 1).push(songs[upto - 1])
    }
}

/// Drops every song that repeats the artist and the title of the song
/// before it, so that of a run of equal hits the earliest stays.
pub fn deduplicate_songs(songs: &Vec<IdentifiedSong>) -> (r: Vec<IdentifiedSong>)
    ensures
        r@ == without_repeats(songs@, songs@.len() as int),
{
    let mut out: Vec<IdentifiedSong> = Vec::new();
    let mut i: usize = 0;
    while i < songs.len()
        invariant
            i <= songs.len(),
            out@ == without_repeats(songs@, i as int),
        decreases songs.len() - i,
    {
        let repeat: bool = i >= 1 && crate::text::same_text(
            songs[i - 1].artist.as_str(),
            songs[i].artist.as_str(),
        ) && crate::text::same_text(songs[i - 1].title.as_str(), songs[i].title.as_str());
        if !repeat {
            out.push(copy_song(&songs[i]));
        }
        i += 1;
    }
    out
}

/// Number of times that `x` occurs among `names[..upto]`.
pub open spec fn occurrences(names: Seq<Seq<char>>, x: Seq<char>, upto: int) -> int
    decreases upto,
{
    if upto <= 0 {
        0
    } else {
        occurrences(names, x, upto - 1) + if names[upto - 1] == x {
            1int
        } else {
            0int
        }
    }
}

/// How often the name at `i` occurs among all names.
pub open spec fn frequency(names: Seq<Seq<char>>, i: int) -> int {
    occurrences(names, names[i], names.len() as int)
}

/// Index of the most frequent name among `names[..upto]` that is not yet
/// among the `chosen`, the first such name among equals; -1 where every
/// name is chosen.
pub open spec fn next_pick(names: Seq<Seq<char>>, chosen: Seq<Seq<char>>, upto: int) -> int
    decreases upto,
{
    if upto <= 0 {
        -1
    } else {
        let before = next_pick(names, chosen, upto - 1);
        let i = upto - 1;
        if !chosen.contains(names[i]) && (before < 0 || frequency(names, i) > frequency(
            names,
            before,
        )) {
            i
        } else {
            before
        }
    }
}

/// The first `rounds` names by frequency: each round adds the most
/// frequent name not yet chosen, the first seen among equals.
pub open spec fn ranked(names: Seq<Seq<char>>, rounds: nat) -> Seq<Seq<char>>
    decreases rounds,
{
    if rounds == 0 {
        Seq::empty()
    } else {
        let before = ranked(names, (rounds - 1) as nat);
        let pick = next_pick(names, before, names.len() as int);
        if pick < 0 {
            before
        } else {
            before.push(names[pick])
        }
    }
}

/// The different names by frequency, the most frequent first, and the
/// first seen among equally frequent ones.
pub open spec fn by_frequency(names: Seq<Seq<char>>) -> Seq<Seq<char>> {
    ranked(names, names.len())
}

fn count_each(names: &Vec<Vec<char>>) -> (r: Vec<usize>)
    ensures
        r@.len() == names@.len(),
        forall|i: int| 0 <= i < names@.len() ==> r@[i] == #[trigger] frequency(texts_of(names@), i),
{
    let ghost all = texts_of(names@);
    let mut counts: Vec<usize> = Vec::new();
    let mut i: usize = 0;
    while i < names.len()
        invariant
            i <= names.len(),
            all == texts_of(names@),
            counts@.len() == i,
            forall|k: int| 0 <= k < i ==> counts@[k] == #[trigger] frequency(all, k),
        decreases names.len() - i,
    {
        let mut count: usize = 0;
        let mut j: usize = 0;
        while j < names.len()
            invariant
                j <= names.len(),
                i < names.len(),
                all == texts_of(names@),
                count == occurrences(all, all[i as int], j as int),
                count <= j,
            decreases names.len() - j,
        {
            assert(all[j as int] == names@[j as int]@);
            assert(all[i as int] == names@[i as int]@);
            if same_chars(&names[j], &names[i]) {
                count += 1;
            }
            j += 1;
        }
        counts.push(count);
        i += 1;
    }
    counts
}

/// Orders the different names by frequency, the most frequent first.
pub fn rank_by_frequency(names: &Vec<Vec<char>>) -> (r: Vec<Vec<char>>)
    ensures
        texts_of(r@) == by_frequency(texts_of(names@)),
{
    let ghost all = texts_of(names@);
    let n: usize = names.len();
    let counts = count_each(names);
    let mut taken: Vec<bool> = Vec::new();
    let mut t: usize = 0;
    while t < n
        invariant
            t <= n,
            taken@.len() == t,
            forall|k: int| 0 <= k < t ==> !taken@[k],
        decreases n - t,
    {
        taken.push(false);
        t += 1;
    }
    let mut out: Vec<Vec<char>> = Vec::new();
    assert(texts_of(out@) =~= ranked(all, 0));
    let mut round: usize = 0;
    while round < n
        invariant
            round <= n,
            n == names.len(),
            all == texts_of(names@),
            counts@.len() == n,
            forall|i: int| 0 <= i < n ==> counts@[i] == #[trigger] frequency(all, i),
            taken@.len() == n,
            forall|i: int| 0 <= i < n ==> taken@[i] == texts_of(out@).contains(#[trigger] all[i]),
            texts_of(out@) == ranked(all, round as nat),
        decreases n - round,
    {
        let ghost chosen = texts_of(out@);
        let mut found: bool = false;
        let mut best: usize = 0;
        let mut i: usize = 0;
        while i < n
            invariant
                i <= n,
                n == names.len(),
                counts@.len() == n,
                taken@.len() == n,
                all == texts_of(names@),
                chosen == texts_of(out@),
                forall|k: int| 0 <= k < n ==> counts@[k] == #[trigger] frequency(all, k),
                forall|k: int| 0 <= k < n ==> taken@[k] == chosen.contains(#[trigger] all[k]),
                found ==> best < i && best == next_pick(all, chosen, i as int),
                !found ==> next_pick(all, chosen, i as int) == -1,
            decreases n - i,
        {
            assert(taken@[i as int] == chosen.contains(all[i as int]));
            if found {
                assert(counts@[best as int] == frequency(all, best as int));
            }
            assert(counts@[i as int] == frequency(all, i as int));
            if !taken[i] && (!found || counts[i] > counts[best]) {
                found = true;
                best = i;
            }
            i += 1;
        }
        if found {
            let picked = names[best].clone();
            assert(picked@ == all[best as int]);
            let mut k: usize = 0;
            while k < n
                invariant
                    k <= n,
                    n == names.len(),
                    best < n,
                    taken@.len() == n,
                    all == texts_of(names@),
                    chosen == texts_of(out@),
                    picked@ == all[best as int],
                    forall|j: int|
                        0 <= j < k ==> taken@[j] == chosen.push(picked@).contains(#[trigger] all[j]),
                    forall|j: int| k <= j < n ==> taken@[j] == chosen.contains(#[trigger] all[j]),
                decreases n - k,
            {
                assert(all[k as int] == names@[k as int]@);
                let same = same_chars(&names[k], &picked);
                proof {
                    let grown = chosen.push(picked@);
                    if same {
                        assert(grown[grown.len() - 1] == all[k as int]);
                    } else if chosen.contains(all[k as int]) {
                        let w = choose|w: int| 0 <= w < chosen.len() && chosen[w] == all[k as int];
                        assert(grown[w] == all[k as int]);
                    } else if grown.contains(all[k as int]) {
                        let w = choose|w: int| 0 <= w < grown.len() && grown[w] == all[k as int];
                        assert(w < chosen.len());
                        assert(chosen[w] == all[k as int]);
                    }
                }
                if same {
                    taken.set(k, true);
                } else {
                    let keep = taken[k];
                    taken.set(k, keep);
                }
                k += 1;
            }
            out.push(picked);
            assert(texts_of(out@) =~= chosen.push(picked@));
        }
        round += 1;
    }
    out
}

/// The names of the albums that the songs `songs[..upto]` name, in the
/// order of the songs.
pub open spec fn albums_named(songs: Seq<IdentifiedSong>, upto: int) -> Seq<Seq<char>>
    decreases upto,
{
    if upto <= 0 {
        Seq::empty()
    } else {
        match songs[upto - 1].album {
            Some(a) => albums_named(songs, upto - 1).push(a@),
            None => albums_named(songs, upto - 1),
        }
    }
}

/// The artists of the songs, in the order of the songs.
pub open spec fn artists_named(songs: Seq<IdentifiedSong>) -> Seq<Seq<char>> {
    Seq::new(songs.len(), |i: int| songs[i].artist@)
}

/// The first of `names`, or `fallback` where there is none.
pub open spec fn first_or(names: Seq<Seq<char>>, fallback: Seq<char>) -> Seq<char> {
    if names.len() > 0 {
        names[0]
    } else {
        fallback
    }
}

/// How often the most frequent of `names` occurs, in thousandths of
/// `total`.
pub open spec fn top_share(names: Seq<Seq<char>>, total: int) -> int {
    if by_frequency(names).len() > 0 && total > 0 {
        1000 * occurrences(names, by_frequency(names)[0], names.len() as int) / total
    } else {
        0
    }
}

fn count_of_name(names: &Vec<Vec<char>>, x: &Vec<char>) -> (r: usize)
    ensures
        r == occurrences(texts_of(names@), x@, names@.len() as int),
        r <= names@.len(),
{
    let mut count: usize = 0;
    let mut j: usize = 0;
    while j < names.len()
        invariant
            j <= names.len(),
            count == occurrences(texts_of(names@), x@, j as int),
            count <= j,
        decreases names.len() - j,
    {
        assert(texts_of(names@)[j as int] == names@[j as int]@);
        if same_chars(&names[j], x) {
            count += 1;
        }
        j += 1;
    }
    count
}

/// Names the album that a list of songs points to: the most frequent
/// album and the most frequent artist, the first seen among equally
/// frequent ones, with all albums as candidates. An empty list of songs
/// is refused.
pub fn identify_album_from_songs(songs: &Vec<IdentifiedSong>) -> (r: Result<AlbumInfo, IdentifyError>)
    ensures
        match r {
            Err(e) => songs@.len() == 0 && e == IdentifyError::NoSongs,
            Ok(info) => {
                let albums = albums_named(songs@, songs@.len() as int);
                &&& songs@.len() > 0
                &&& crate::text::strings_of(info.album_candidates@) == by_frequency(albums)
                &&& info.album_title@ == first_or(by_frequency(albums), "Unknown Album"@)
                &&& info.album_artist@ == first_or(
                    by_frequency(artists_named(songs@)),
                    "Unknown Artist"@,
                )
                &&& info.confidence_permille == top_share(albums, songs@.len() as int)
                &&& info.songs@ == songs@
                &&& info.log@.len() == 0
            },
        },
{
    if songs.len() == 0 {
        return Err(IdentifyError::NoSongs);
    }
    let mut albums: Vec<Vec<char>> = Vec::new();
    let mut artists: Vec<Vec<char>> = Vec::new();
    let mut copies: Vec<IdentifiedSong> = Vec::new();
    let mut i: usize = 0;
    assert(texts_of(albums@) =~= albums_named(songs@, 0));
    while i < songs.len()
        invariant
            i <= songs.len(),
            texts_of(albums@) == albums_named(songs@, i as int),
            artists@.len() == i,
            forall|k: int| 0 <= k < i ==> (#[trigger] artists@[k])@ == songs@[k].artist@,
            copies@ == songs@.take(i as int),
        decreases songs.len() - i,
    {
        let ghost before = texts_of(albums@);
        match &songs[i].album {
            Some(a) => {
                let chars = chars_of(a.as_str());
                albums.push(chars);
                assert(texts_of(albums@) =~= before.push(a@));
            },
            None => {},
        }
        artists.push(chars_of(songs[i].artist.as_str()));
        copies.push(copy_song(&songs[i]));
        i += 1;
        assert(songs@.take(i as int) == songs@.take(i - 1).push(songs@[i - 1]));
    }
    assert(songs@.take(songs@.len() as int) == songs@);
    assert(texts_of(artists@) =~= artists_named(songs@));
    let ranked_albums = rank_by_frequency(&albums);
    let ranked_artists = rank_by_frequency(&artists);
    let ghost album_texts = by_frequency(texts_of(albums@));
    let mut candidates: Vec<String> = Vec::new();
    let mut c: usize = 0;
    while c < ranked_albums.len()
        invariant
            c <= ranked_albums.len(),
            texts_of(ranked_albums@) == album_texts,
            candidates@.len() == c,
            forall|k: int| 0 <= k < c ==> (#[trigger] candidates@[k])@ == album_texts[k],
        decreases ranked_albums.len() - c,
    {
        assert(texts_of(ranked_albums@)[c as int] == ranked_albums@[c as int]@);
        candidates.push(string_of(&ranked_albums[c]));
        c += 1;
    }
    assert(crate::text::strings_of(candidates@) =~= album_texts);
    let album_title: String = if ranked_albums.len() > 0 {
        assert(texts_of(ranked_albums@)[0] == ranked_albums@[0]@);
        string_of(&ranked_albums[0])
    } else {
        String::from_str("Unknown Album")
    };
    let album_artist: String = if ranked_artists.len() > 0 {
        assert(texts_of(ranked_artists@)[0] == ranked_artists@[0]@);
        string_of(&ranked_artists[0])
    } else {
        String::from_str("Unknown Artist")
    };
    let confidence_permille: u32 = if ranked_albums.len() > 0 {
        assert(texts_of(ranked_albums@)[0] == ranked_albums@[0]@);
        let top = count_of_name(&albums, &ranked_albums[0]);
        proof {
            lemma_albums_no_more_than_songs(songs@, songs@.len() as int);
            let n = songs@.len() as int;
            vstd::arithmetic::div_mod::lemma_div_is_ordered(1000 * top, 1000 * n, n);
            assert((1000 * n) / n == 1000) by (nonlinear_arith)
                requires
                    n > 0,
            ;
        }
        (1000 * (top as u128) / (songs.len() as u128)) as u32
    } else {
        0
    };
    Ok(
        AlbumInfo {
            album_title,
            album_artist,
            album_candidates: candidates,
            songs: copies,
            confidence_permille,
            log: String::new(),
        },
    )
}

/// No more albums are named than there are songs.
pub proof fn lemma_albums_no_more_than_songs(songs: Seq<IdentifiedSong>, upto: int)
    requires
        0 <= upto <= songs.len(),
    ensures
        albums_named(songs, upto).len() <= upto,
    decreases upto,
{
    if upto > 0 {
        lemma_albums_no_more_than_songs(songs, upto - 1);
    }
}

/// How a lookup with the fingerprint service ended.
#[derive(Clone, Copy, Debug, PartialEq, Eq, Structural)]
pub enum LookupOutcome {
    /// The service named a song.
    Recognized,
    /// The service answered, without a song.
    NoMatch,
    /// The answer of the service could not be decoded.
    DecodeError,
    /// The lookup failed in another way.
    Failed,
}

/// What follows a lookup.
#[derive(Clone, Copy, Debug, PartialEq, Eq, Structural)]
pub enum LookupStep {
    /// The segment is settled; `found` tells whether it has a song.
    Settled {
        /// Whether the segment has a song.
        found: bool,
    },
    /// The lookup is to be tried once more after this many microseconds.
    RetryAfter(u64),
}

/// Settles the first lookup of a segment. An answer that could not be
/// decoded asks for one more try after half a minute and leaves the
/// limiter as it is; every other outcome settles the segment and counts
/// as a success for the limiter.
pub fn after_lookup(limiter: &mut RateLimiter, outcome: LookupOutcome) -> (r: LookupStep)
    ensures
        outcome == LookupOutcome::DecodeError ==> r == LookupStep::RetryAfter(RETRY_DELAY_US)
            && *final(limiter) == *old(limiter),
        outcome != LookupOutcome::DecodeError ==> {
            &&& r == LookupStep::Settled { found: outcome == LookupOutcome::Recognized }
            &&& old(limiter).reduces_on_success() ==> final(limiter).current_interval
                == crate::rate_limiter::relaxed(
                old(limiter).current_interval,
                old(limiter).base_interval,
            )
            &&& !old(limiter).reduces_on_success() ==> final(limiter).current_interval == old(
                limiter,
            ).current_interval
            &&& old(limiter).reduces_on_success() ==> final(limiter).success_count == 0
            &&& final(limiter).base_interval == old(limiter).base_interval
            &&& final(limiter).max_interval == old(limiter).max_interval
            &&& final(limiter).last_request == old(limiter).last_request
        },
{
    match outcome {
        LookupOutcome::DecodeError => LookupStep::RetryAfter(RETRY_DELAY_US),
        LookupOutcome::Recognized => {
            limiter.report_success();
            LookupStep::Settled { found: true }
        },
        _ => {
            limiter.report_success();
            LookupStep::Settled { found: false }
        },
    }
}

/// Settles the second lookup of a segment: whatever it brought, the
/// limiter backs off, because the first lookup failed. Returns whether the
/// segment has a song.
pub fn after_retry(limiter: &mut RateLimiter, outcome: LookupOutcome) -> (found: bool)
    ensures
        found == (outcome == LookupOutcome::Recognized),
        final(limiter).current_interval == crate::rate_limiter::backed_off(
            old(limiter).current_interval,
            old(limiter).max_interval,
        ),
        final(limiter).success_count == 0,
{
    limiter.report_failure();
    outcome == LookupOutcome::Recognized
}

/// What the error output of a failed lookup tells: an answer that could
/// not be decoded where it holds `Decode` or `expected value`, else a
/// failure of another kind.
pub fn classify_failure(error_output: &str) -> (r: LookupOutcome)
    ensures
        r == if contains_text(error_output@, "Decode"@) || contains_text(
            error_output@,
            "expected value"@,
        ) {
            LookupOutcome::DecodeError
        } else {
            LookupOutcome::Failed
        },
{
    let text = chars_of(error_output);
    let decode = chars_of("Decode");
    let expected = chars_of("expected value");
    if contains(&text, &decode) || contains(&text, &expected) {
        LookupOutcome::DecodeError
    } else {
        LookupOutcome::Failed
    }
}

/// What an answer of the lookup tool tells: the song it names, or no
/// match where it names none. An answer that is no JSON document names no
/// song and counts as no match too: a decode error is what the tool
/// reports when it fails, not what it prints when it answers.
pub fn classify_answer(json_str: &str) -> (r: (LookupOutcome, Option<IdentifiedSong>))
    ensures
        match json_document(json_str@) {
            None => r.0 == LookupOutcome::NoMatch && r.1 is None,
            Some(doc) => match r.1 {
                Some(song) => r.0 == LookupOutcome::Recognized && song_error(doc) is None
                    && names_song(doc, song),
                None => r.0 == LookupOutcome::NoMatch && song_error(doc) is Some,
            },
        },
{
    match parse_json(json_str) {
        None => (LookupOutcome::NoMatch, None),
        Some(doc) => match song_from_json(&doc) {
            Ok(song) => (LookupOutcome::Recognized, Some(song)),
            Err(_) => (LookupOutcome::NoMatch, None),
        },
    }
}

} // verus!
