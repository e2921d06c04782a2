//! Release metadata in the shape that MusicBrainz reports it.

use crate::cuefile::{last_index_of, rfind_char};
use crate::text::{
    append_str, byte_len, byte_length, chars_of, contains, contains_text, ends_with, find_char,
    has_suffix, index_of, occurs_at, parse_number, parsed_number, pieces_of, rfind_text, slice_of,
    split_on, string_of, strings_of, texts_of,
};
use vstd::prelude::*;

verus! {

/// A track as a release lists it, with the start expected from the lengths
/// of the tracks before it on the same side. Times are in microseconds.
#[derive(Clone, Debug)]
pub struct ExpectedTrack {
    /// Position of the track on its medium, counted from 1.
    pub position: u32,
    /// Title of the track.
    pub title: String,
    /// Length of the track, 0 where the release does not tell.
    pub length_us: u64,
    /// Start of the track within its side.
    pub expected_start_us: u64,
}

/// Copies one track.
pub fn copy_track(t: &ExpectedTrack) -> (r: ExpectedTrack)
    ensures
        r == *t,
{
    ExpectedTrack {
        position: t.position,
        title: t.title.clone(),
        length_us: t.length_us,
        expected_start_us: t.expected_start_us,
    }
}

/// Copies a list of tracks.
pub fn copy_tracks(v: &Vec<ExpectedTrack>) -> (r: Vec<ExpectedTrack>)
    ensures
        r@ == v@,
{
    let mut out: Vec<ExpectedTrack> = Vec::new();
    let mut i: usize = 0;
    while i < v.len()
        invariant
            i <= v.len(),
            out@ == v@.take(i as int),
        decreases v.len() - i,
    {
        out.push(copy_track(&v[i]));
        i += 1;
        assert(v@.take(i as int) == v@.take(i - 1).push(v@[i - 1]));
    }
    assert(v@.take(v@.len() as int) == v@);
    out
}

/// A release as a search reports it.
#[derive(Clone, Debug)]
pub struct SearchResult {
    /// Identifier of the release.
    pub release_id: String,
    /// Title of the release.
    pub title: String,
    /// Artist of the release.
    pub artist: String,
    /// How well the release matches the search, from 0 to 100.
    pub score: u32,
    /// Whether the release is on vinyl.
    pub is_vinyl: bool,
    /// Number of tracks of the release.
    pub track_count: u32,
}

/// A medium of a release with its tracks.
#[derive(Clone, Debug)]
pub struct MediumInfo {
    /// Position of the medium within the release, counted from 1.
    pub position: u32,
    /// Format of the medium, where known.
    pub format: Option<String>,
    /// Tracks of the medium that have a length.
    pub tracks: Vec<ExpectedTrack>,
    /// Sum of the lengths of the tracks.
    pub total_duration_us: u64,
}

/// Lowest score of a search result that is looked at.
pub const MIN_SEARCH_SCORE: u32 = 80;

/// Interval between requests to the service, in milliseconds.
pub const REQUEST_INTERVAL_MS: u64 = 1100;

/// Sum of the lengths of `tracks[from..to]`.
pub open spec fn lengths_between(tracks: Seq<ExpectedTrack>, from: int, to: int) -> int
    decreases to - from,
{
    if to <= from {
        0
    } else {
        lengths_between(tracks, from, to - 1) + tracks[to - 1].length_us
    }
}

/// The distance of two durations.
pub open spec fn gap(a: int, b: int) -> int {
    if a >= b {
        a - b
    } else {
        b - a
    }
}

/// How far the better half is off the file where the tracks are split
/// before track `split`.
pub open spec fn split_error(tracks: Seq<ExpectedTrack>, file_us: int, split: int) -> int {
    let first = gap(file_us, lengths_between(tracks, 0, split));
    let second = gap(file_us, lengths_between(tracks, split, tracks.len() as int));
    if first <= second {
        first
    } else {
        second
    }
}

/// The best place among `1..upto` to split the tracks: the first one with
/// the least error; 0 where there is no place.
pub open spec fn best_split(tracks: Seq<ExpectedTrack>, file_us: int, upto: int) -> int
    decreases upto,
{
    if upto <= 1 {
        0
    } else {
        let before = best_split(tracks, file_us, upto - 1);
        if before == 0 || split_error(tracks, file_us, upto - 1) < split_error(
            tracks,
            file_us,
            before,
        ) {
            upto - 1
        } else {
            before
        }
    }
}

/// The whole list is taken for the file: its total is known and the file
/// is less than a fifth of it off.
pub open spec fn takes_all(tracks: Seq<ExpectedTrack>, file_us: int) -> bool {
    let total = lengths_between(tracks, 0, tracks.len() as int);
    total > 0 && 5 * gap(file_us, total) < total
}

/// The first half is taken where it is closer to the file than the
/// second.
pub open spec fn takes_first_half(tracks: Seq<ExpectedTrack>, file_us: int, split: int) -> bool {
    gap(file_us, lengths_between(tracks, 0, split)) < gap(
        file_us,
        lengths_between(tracks, split, tracks.len() as int),
    )
}

/// `t` moved `offset_us` towards the start of its side, not before it.
pub open spec fn moved_back(t: ExpectedTrack, offset_us: int) -> ExpectedTrack {
    ExpectedTrack {
        position: t.position,
        title: t.title,
        length_us: t.length_us,
        expected_start_us: if t.expected_start_us >= offset_us {
            (t.expected_start_us - offset_us) as u64
        } else {
            0
        },
    }
}

/// The tracks picked for a file of `file_us`, and the index of the first
/// of them: the whole list where the file is less than a fifth of its
/// total off; else the half, split at the best place, that is closer to
/// the file, the second half with its starts counted from its own
/// beginning.
pub open spec fn tracks_for_duration(tracks: Seq<ExpectedTrack>, file_us: int) -> (
    int,
    Seq<ExpectedTrack>,
) {
    let split = best_split(tracks, file_us, tracks.len() as int);
    if tracks.len() == 0 {
        (0, Seq::empty())
    } else if takes_all(tracks, file_us) {
        (0, tracks)
    } else if takes_first_half(tracks, file_us, split) {
        (0, tracks.subrange(0, split))
    } else {
        (
            split,
            Seq::new(
                (tracks.len() - split) as nat,
                |i: int| moved_back(tracks[split + i], lengths_between(tracks, 0, split)),
            ),
        )
    }
}

fn sum_between(tracks: &Vec<ExpectedTrack>, from: usize, to: usize) -> (r: u128)
    requires
        from <= to <= tracks.len(),
    ensures
        r == lengths_between(tracks@, from as int, to as int),
        r <= (to - from) * 0xffff_ffff_ffff_ffff,
{
    let mut sum: u128 = 0;
    let mut i: usize = from;
    while i < to
        invariant
            from <= i <= to <= tracks.len(),
            sum == lengths_between(tracks@, from as int, i as int),
            sum <= (i - from) * 0xffff_ffff_ffff_ffff,
        decreases to - i,
    {
        assert((to - from) * 0xffff_ffff_ffff_ffff <= 0xffff_ffff_ffff_ffff * 0xffff_ffff_ffff_ffff)
            by (nonlinear_arith)
            requires
                0 <= to - from <= 0xffff_ffff_ffff_ffff,
        ;
        assert((i - from) * 0xffff_ffff_ffff_ffff <= (to - from) * 0xffff_ffff_ffff_ffff)
            by (nonlinear_arith)
            requires
                0 <= i - from <= to - from,
        ;
        assert((i + 1 - from) * 0xffff_ffff_ffff_ffff == (i - from) * 0xffff_ffff_ffff_ffff
            + 0xffff_ffff_ffff_ffff) by (nonlinear_arith);
        sum = sum + tracks[i].length_us as u128;
        i += 1;
    }
    sum
}

fn gap_of(a: u128, b: u128) -> (r: u128)
    ensures
        r == gap(a as int, b as int),
{
    if a >= b {
        a - b
    } else {
        b - a
    }
}

/// Picks the tracks of a release that a file of `file_duration_us` holds.
///
/// The whole list is taken where the file is less than a fifth of its
/// total off. Else the list is split in two where the better half comes
/// closest to the file, and the half that is closer is taken: the first
/// half as it is, the second with its starts counted from its own
/// beginning. Returns the index of the first track taken, and the tracks.
pub fn match_tracks_to_duration(all_tracks: &Vec<ExpectedTrack>, file_duration_us: u64) -> (r: (
    usize,
    Vec<ExpectedTrack>,
))
    ensures
        (r.0 as int, r.1@) == tracks_for_duration(all_tracks@, file_duration_us as int),
{
    let n: usize = all_tracks.len();
    if n == 0 {
        let none: Vec<ExpectedTrack> = Vec::new();
        assert(none@ =~= Seq::<ExpectedTrack>::empty());
        return (0, none);
    }
    let file: u128 = file_duration_us as u128;
    let total = sum_between(all_tracks, 0, n);
    if total > 0 && gap_of(file, total) <= (total - 1) / 5 {
        return (0, copy_tracks(all_tracks));
    }
    let mut best: usize = 0;
    let mut best_error: u128 = 0;
    let mut split: usize = 1;
    while split < n
        invariant
            1 <= split <= n,
            n == all_tracks.len(),
            file == file_duration_us,
            best < split,
            best == best_split(all_tracks@, file_duration_us as int, split as int),
            best > 0 ==> best_error == split_error(
                all_tracks@,
                file_duration_us as int,
                best as int,
            ),
        decreases n - split,
    {
        let first = gap_of(file, sum_between(all_tracks, 0, split));
        let second = gap_of(file, sum_between(all_tracks, split, n));
        let error: u128 = if first <= second { first } else { second };
        if best == 0 || error < best_error {
            best = split;
            best_error = error;
        }
        split += 1;
    }
    let first_total = sum_between(all_tracks, 0, best);
    let second_total = sum_between(all_tracks, best, n);
    if gap_of(file, first_total) < gap_of(file, second_total) {
        let mut out: Vec<ExpectedTrack> = Vec::new();
        let mut i: usize = 0;
        while i < best
            invariant
                i <= best < n,
                n == all_tracks.len(),
                out@ == all_tracks@.subrange(0, i as int),
            decreases best - i,
        {
            out.push(copy_track(&all_tracks[i]));
            i += 1;
            assert(all_tracks@.subrange(0, i as int) == all_tracks@.subrange(0, i - 1).push(
                all_tracks@[i - 1],
            ));
        }
        (0, out)
    } else {
        let mut out: Vec<ExpectedTrack> = Vec::new();
        let mut i: usize = best;
        while i < n
            invariant
                best <= i <= n,
                n == all_tracks.len(),
                first_total == lengths_between(all_tracks@, 0, best as int),
                out@.len() == i - best,
                forall|k: int|
                    0 <= k < out@.len() ==> #[trigger] out@[k] == moved_back(
                        all_tracks@[best + k],
                        first_total as int,
                    ),
            decreases n - i,
        {
            let t = &all_tracks[i];
            let start: u64 = if t.expected_start_us as u128 >= first_total {
                (t.expected_start_us as u128 - first_total) as u64
            } else {
                0
            };
            out.push(
                ExpectedTrack {
                    position: t.position,
                    title: t.title.clone(),
                    length_us: t.length_us,
                    expected_start_us: start,
                },
            );
            i += 1;
        }
        assert(out@ =~= tracks_for_duration(all_tracks@, file_duration_us as int).1);
        (best, out)
    }
}

/// The identifier that a reference to a release names: what follows the
/// last `/release/` of a URL, up to a question mark or a hash sign; or the
/// reference itself where it takes 36 bytes and has a hyphen.
pub open spec fn release_id_in(url: Seq<char>) -> Option<Seq<char>> {
    if contains_text(url, "/release/"@) {
        let at = last_occurrence(url, "/release/"@, url.len() as int) + 9;
        let rest = url.subrange(at, url.len() as int);
        let cut = rest.subrange(0, index_of(rest, '?', 0));
        Some(cut.subrange(0, index_of(cut, '#', 0)))
    } else if byte_len(url) == 36 && index_of(url, '-', 0) < url.len() {
        Some(url)
    } else {
        None
    }
}

/// Index of the last occurrence of `needle` in `hay` below `upto`; -1
/// where there is none.
pub open spec fn last_occurrence(hay: Seq<char>, needle: Seq<char>, upto: int) -> int
    decreases upto,
{
    if upto < 0 {
        -1
    } else if occurs_at(hay, needle, upto) {
        upto
    } else if upto == 0 {
        -1
    } else {
        last_occurrence(hay, needle, upto - 1)
    }
}

proof fn lemma_last_occurrence(hay: Seq<char>, needle: Seq<char>, at: int, upto: int)
    requires
        0 <= at <= upto,
        occurs_at(hay, needle, at),
        forall|j: int| j > at ==> !occurs_at(hay, needle, j),
    ensures
        last_occurrence(hay, needle, upto) == at,
    decreases upto - at,
{
    if at < upto {
        lemma_last_occurrence(hay, needle, at, upto - 1);
    }
}

/// Reads the identifier of a release from a URL or an identifier.
pub fn parse_musicbrainz_url(url: &str) -> (r: Option<String>)
    ensures
        match r {
            Some(id) => release_id_in(url@) == Some(id@),
            None => release_id_in(url@) is None,
        },
{
    let chars = chars_of(url);
    let marker = chars_of("/release/");
    proof {
        reveal_strlit("/release/");
    }
    match rfind_text(&chars, &marker) {
        Some(at) => {
            proof {
                lemma_last_occurrence(chars@, marker@, at as int, chars@.len() as int);
            }
            let rest = slice_of(&chars, at + 9, chars.len());
            let question = find_char(&rest, '?', 0);
            let cut = slice_of(&rest, 0, question);
            let hash = find_char(&cut, '#', 0);
            let id = slice_of(&cut, 0, hash);
            Some(string_of(&id))
        },
        None => {
            if byte_length(&chars) == 36 && find_char(&chars, '-', 0) < chars.len() {
                Some(string_of(&chars))
            } else {
                None
            }
        },
    }
}

/// The words and the side that the name of a recording gives: the name
/// is `<words joined by underscores>.<side>.wav`, with at least two
/// words and a side in digits, with a plus sign before them or without.
pub open spec fn recording_parts(path: Seq<char>) -> Option<(Seq<Seq<char>>, u32)> {
    let name = path.subrange(last_index_of(path, '/', path.len() as int) + 1, path.len() as int);
    let dot = last_index_of(name, '.', name.len() as int - 4);
    if name.len() == 0 || name.len() < 4 || !(has_suffix(name, ".wav"@) || has_suffix(
        name,
        ".WAV"@,
    )) || dot < 0 {
        None
    } else {
        let words = pieces_of(name.subrange(0, dot), '_');
        match parsed_number(name.subrange(dot + 1, name.len() - 4)) {
            Some(side) => if side <= u32::MAX && words.len() >= 2 {
                Some((words, side as u32))
            } else {
                None
            },
            None => None,
        }
    }
}

/// Reads the words and the number of the side from the name of a
/// recording such as `pink_floyd_the_wall.2.wav`.
pub fn parse_recording_filename(path: &str) -> (r: Option<(Vec<String>, u32)>)
    ensures
        match r {
            Some(parts) => recording_parts(path@) == Some((strings_of(parts.0@), parts.1)),
            None => recording_parts(path@) is None,
        },
{
    let chars = chars_of(path);
    let from: usize = match rfind_char(&chars, '/') {
        Some(i) => i + 1,
        None => 0,
    };
    let name = slice_of(&chars, from, chars.len());
    let lower = chars_of(".wav");
    let upper = chars_of(".WAV");
    proof {
        reveal_strlit(".wav");
        reveal_strlit(".WAV");
    }
    if name.len() < 4 || !(ends_with(&name, &lower) || ends_with(&name, &upper)) {
        return None;
    }
    let end: usize = name.len() - 4;
    let mut dot: usize = end;
    let mut found: bool = false;
    while dot > 0 && !found
        invariant
            dot <= end <= name.len(),
            !found ==> last_index_of(name@, '.', end as int) == last_index_of(
                name@,
                '.',
                dot as int,
            ),
            found ==> dot < end && dot == last_index_of(name@, '.', end as int),
        decreases dot + if found { 0int } else { 1int },
    {
        if name[dot - 1] == '.' {
            found = true;
        }
        dot -= 1;
    }
    if !found {
        return None;
    }
    let side_text = slice_of(&name, dot + 1, end);
    let side: u64 = match parse_number(&side_text) {
        Some(n) => n,
        None => {
            return None;
        },
    };
    if side > u32::MAX as u64 {
        return None;
    }
    let base = slice_of(&name, 0, dot);
    let pieces = split_on(&base, '_');
    if pieces.len() < 2 {
        assert(texts_of(pieces@).len() == pieces@.len());
        return None;
    }
    let mut words: Vec<String> = Vec::new();
    let mut i: usize = 0;
    while i < pieces.len()
        invariant
            i <= pieces.len(),
            words@.len() == i,
            forall|k: int| 0 <= k < i ==> (#[trigger] words@[k])@ == pieces@[k]@,
        decreases pieces.len() - i,
    {
        words.push(string_of(&pieces[i]));
        i += 1;
    }
    assert(strings_of(words@) =~= texts_of(pieces@));
    Some((words, side as u32))
}

/// A track of a medium as the service lists it.
#[derive(Clone, Debug)]
pub struct ListedRecording {
    /// Title of the track.
    pub title: String,
    /// Length of the track in milliseconds, where known.
    pub length_ms: Option<u64>,
    /// Position of the track on its medium.
    pub position: u32,
}

/// Number of the entries among `listed[..upto]` that have a length.
pub open spec fn timed_among(listed: Seq<ListedRecording>, upto: int) -> int
    decreases upto,
{
    if upto <= 0 {
        0
    } else {
        timed_among(listed, upto - 1) + if listed[upto - 1].length_ms is Some {
            1int
        } else {
            0int
        }
    }
}

/// Sum of the lengths, in microseconds, of the entries among
/// `listed[..upto]` that have one.
pub open spec fn timed_total(listed: Seq<ListedRecording>, upto: int) -> int
    decreases upto,
{
    if upto <= 0 {
        0
    } else {
        timed_total(listed, upto - 1) + match listed[upto - 1].length_ms {
            Some(ms) => ms * 1000,
            None => 0,
        }
    }
}

/// The sum over more entries is no smaller.
pub proof fn lemma_timed_total_grows(listed: Seq<ListedRecording>, a: int, b: int)
    requires
        0 <= a <= b <= listed.len(),
    ensures
        0 <= timed_total(listed, a) <= timed_total(listed, b),
    decreases b - a, a,
{
    if a < b {
        lemma_timed_total_grows(listed, a, b - 1);
    } else if a > 0 {
        lemma_timed_total_grows(listed, a - 1, a - 1);
    }
}

/// Builds a medium from what the service lists: the tracks that have a
/// length, each with the start expected from the lengths before it.
/// Nothing exactly where the lengths exceed the range of a duration.
pub fn build_medium(position: u32, format: Option<String>, listed: &Vec<ListedRecording>) -> (r:
    Option<MediumInfo>)
    ensures
        r is Some <==> timed_total(listed@, listed@.len() as int) <= u64::MAX,
        r matches Some(medium) ==> {
            &&& medium.position == position
            &&& medium.format == format
            &&& medium.tracks@.len() == timed_among(listed@, listed@.len() as int)
            &&& crate::discogs::starts_are_cumulative(medium.tracks@)
            &&& medium.total_duration_us == crate::discogs::lengths_before(
                medium.tracks@,
                medium.tracks@.len() as int,
            )
            &&& forall|i: int|
                0 <= i < listed@.len() && (#[trigger] listed@[i]).length_ms is Some ==> {
                    let t = medium.tracks@[timed_among(listed@, i)];
                    &&& t.title == listed@[i].title
                    &&& t.position == listed@[i].position
                    &&& t.length_us == listed@[i].length_ms->0 * 1000
                }
        },
{
    let mut tracks: Vec<ExpectedTrack> = Vec::new();
    let mut cumulative: u64 = 0;
    let mut i: usize = 0;
    while i < listed.len()
        invariant
            i <= listed.len(),
            tracks@.len() == timed_among(listed@, i as int),
            cumulative == crate::discogs::lengths_before(tracks@, tracks@.len() as int),
            cumulative == timed_total(listed@, i as int),
            crate::discogs::starts_are_cumulative(tracks@),
            forall|k: int|
                0 <= k < i && (#[trigger] listed@[k]).length_ms is Some ==> {
                    let t = tracks@[timed_among(listed@, k)];
                    &&& 0 <= timed_among(listed@, k) < tracks@.len()
                    &&& t.title == listed@[k].title
                    &&& t.position == listed@[k].position
                    &&& t.length_us == listed@[k].length_ms->0 * 1000
                },
        decreases listed.len() - i,
    {
        match listed[i].length_ms {
            Some(ms) => {
                proof {
                    lemma_timed_total_grows(listed@, i + 1, listed@.len() as int);
                }
                if ms > u64::MAX / 1000 {
                    return None;
                }
                let length: u64 = ms * 1000;
                if length > u64::MAX - cumulative {
                    return None;
                }
                let ghost before = tracks@;
                tracks.push(
                    ExpectedTrack {
                        position: listed[i].position,
                        title: listed[i].title.clone(),
                        length_us: length,
                        expected_start_us: cumulative,
                    },
                );
                proof {
                    assert forall|k: int| 0 <= k < tracks@.len() implies (
                    #[trigger] tracks@[k]).expected_start_us == crate::discogs::lengths_before(
                        tracks@,
                        k,
                    ) by {
                        crate::discogs::lemma_lengths_same_prefix(
                            tracks@,
                            before,
                            if k < before.len() {
                                k
                            } else {
                                before.len() as int
                            },
                        );
                    }
                    crate::discogs::lemma_lengths_same_prefix(tracks@, before, before.len() as int);
                }
                cumulative = cumulative + length;
            },
            None => {},
        }
        i += 1;
    }
    Some(MediumInfo { position, format, tracks, total_duration_us: cumulative })
}

/// Largest error of the duration at which a release still counts as a
/// match: a twentieth of the music, at least half a minute.
pub open spec fn duration_tolerance(music_us: int) -> int {
    if music_us / 20 > 30_000_000 {
        music_us / 20
    } else {
        30_000_000
    }
}

/// Tells whether a release whose best duration is off by `error_us`
/// counts as a match for music of `music_duration_us`.
pub fn duration_matches(error_us: u64, music_duration_us: u64) -> (r: bool)
    ensures
        r == (error_us <= duration_tolerance(music_duration_us as int)),
{
    let share: u64 = music_duration_us / 20;
    let tolerance: u64 = if share > 30_000_000 { share } else { 30_000_000 };
    error_us <= tolerance
}

/// The titles of `tracks`.
pub open spec fn track_titles_of(tracks: Seq<ExpectedTrack>) -> Seq<Seq<char>> {
    Seq::new(tracks.len(), |i: int| tracks[i].title@)
}

/// The total length of `tracks`, held within the range of a duration.
pub open spec fn held_total(tracks: Seq<ExpectedTrack>) -> int {
    if lengths_between(tracks, 0, tracks.len() as int) > u64::MAX {
        u64::MAX as int
    } else {
        lengths_between(tracks, 0, tracks.len() as int)
    }
}

/// Score of a set of tracks against a file: 0 for no tracks, else the
/// score of their titles and their total length.
pub open spec fn set_score(tracks: Seq<ExpectedTrack>, songs: Seq<Seq<char>>, file_us: int) -> int {
    if tracks.len() == 0 {
        0
    } else {
        crate::discogs::track_set_score(songs, track_titles_of(tracks), held_total(tracks), file_us)
    }
}

/// Scores a set of tracks against the songs and the duration of a file. A
/// total length beyond the range of a duration counts as the longest one.
pub fn score_track_set(tracks: &Vec<ExpectedTrack>, file_duration_us: u64, song_titles: &Vec<String>) -> (r:
    u64)
    ensures
        r == set_score(tracks@, strings_of(song_titles@), file_duration_us as int),
{
    if tracks.len() == 0 {
        return 0;
    }
    let mut titles: Vec<String> = Vec::new();
    let mut i: usize = 0;
    while i < tracks.len()
        invariant
            i <= tracks.len(),
            titles@.len() == i,
            forall|k: int| 0 <= k < i ==> (#[trigger] titles@[k])@ == tracks@[k].title@,
        decreases tracks.len() - i,
    {
        titles.push(tracks[i].title.clone());
        i += 1;
    }
    assert(strings_of(titles@) =~= track_titles_of(tracks@));
    let total = sum_between(tracks, 0, tracks.len());
    let held: u64 = if total > u64::MAX as u128 { u64::MAX } else { total as u64 };
    crate::discogs::score_track_titles(song_titles, &titles, held, file_duration_us)
}

/// How far the duration that comes closest is off the file: among the
/// media with tracks `sides[..upto]`, and the better halves of those that
/// are long for the file. The largest duration where there is none.
pub open spec fn closest_error(sides: Seq<MediumInfo>, file_us: int, upto: int) -> int
    decreases upto,
{
    if upto <= 0 {
        u64::MAX as int
    } else {
        let before = closest_error(sides, file_us, upto - 1);
        let side = sides[upto - 1];
        if side.tracks@.len() == 0 {
            before
        } else {
            let whole = gap(side.total_duration_us as int, file_us);
            let with_whole = if whole < before {
                whole
            } else {
                before
            };
            let half = tracks_for_duration(side.tracks@, file_us).1;
            if is_long_for(side, file_us) && half.len() > 0 && gap(
                lengths_between(half, 0, half.len() as int),
                file_us,
            ) < with_whole {
                gap(lengths_between(half, 0, half.len() as int), file_us)
            } else {
                with_whole
            }
        }
    }
}

/// A medium is long for a file: more than 1.3 times its duration, with at
/// least three tracks.
pub open spec fn is_long_for(side: MediumInfo, file_us: int) -> bool {
    10 * side.total_duration_us > 13 * file_us && side.tracks@.len() >= 3
}

/// Sum of the total durations of `sides[..upto]`.
pub open spec fn all_media_total(sides: Seq<MediumInfo>, upto: int) -> int
    decreases upto,
{
    if upto <= 0 {
        0
    } else {
        all_media_total(sides, upto - 1) + sides[upto - 1].total_duration_us
    }
}

/// Returns how far the duration of a release that comes closest is off
/// the file: that of a medium, of the better half of a medium that is long
/// for the file, or of all media together.
pub fn best_duration_error(sides: &Vec<MediumInfo>, file_duration_us: u64) -> (r: u64)
    ensures
        r == ({
            let single = closest_error(sides@, file_duration_us as int, sides@.len() as int);
            let together = gap(
                all_media_total(sides@, sides@.len() as int),
                file_duration_us as int,
            );
            if together < single {
                together
            } else {
                single
            }
        }),
{
    let file: u128 = file_duration_us as u128;
    let mut best: u64 = u64::MAX;
    let mut total: u128 = 0;
    let mut i: usize = 0;
    while i < sides.len()
        invariant
            i <= sides.len(),
            file == file_duration_us,
            best == closest_error(sides@, file_duration_us as int, i as int),
            total == all_media_total(sides@, i as int),
            total <= i * 0xffff_ffff_ffff_ffff,
        decreases sides.len() - i,
    {
        assert((i + 1) * 0xffff_ffff_ffff_ffff == i * 0xffff_ffff_ffff_ffff + 0xffff_ffff_ffff_ffff)
            by (nonlinear_arith);
        assert(i * 0xffff_ffff_ffff_ffff <= 0xffff_ffff_ffff_ffff * 0xffff_ffff_ffff_ffff)
            by (nonlinear_arith)
            requires
                0 <= i <= 0xffff_ffff_ffff_ffff,
        ;
        let side = &sides[i];
        total = total + side.total_duration_us as u128;
        if side.tracks.len() > 0 {
            let whole = gap_of(side.total_duration_us as u128, file);
            if whole < best as u128 {
                best = whole as u64;
            }
            if 10 * (side.total_duration_us as u128) > 13 * file && side.tracks.len() >= 3 {
                let (_, half) = match_tracks_to_duration(&side.tracks, file_duration_us);
                if half.len() > 0 {
                    let length = sum_between(&half, 0, half.len());
                    let off = gap_of(length, file);
                    if off < best as u128 {
                        best = off as u64;
                    }
                }
            }
        }
        i += 1;
    }
    let together = gap_of(total, file);
    if together < best as u128 {
        together as u64
    } else {
        best
    }
}

/// The tracks taken from a release of a single medium: all of them where
/// the medium is less than one and a half times as long as the file; else
/// the half that fits the file, or all where no half does.
pub open spec fn single_choice(side: MediumInfo, file_us: int) -> Seq<ExpectedTrack> {
    let half = tracks_for_duration(side.tracks@, file_us).1;
    if 2 * side.total_duration_us < 3 * file_us || half.len() == 0 {
        side.tracks@
    } else {
        half
    }
}

/// The tracks of a candidate: a medium, or the half of it that fits the
/// file.
pub open spec fn candidate_tracks(sides: Seq<MediumInfo>, file_us: int, c: (int, bool)) -> Seq<
    ExpectedTrack,
> {
    if c.1 {
        tracks_for_duration(sides[c.0].tracks@, file_us).1
    } else {
        sides[c.0].tracks@
    }
}

/// The best candidate among the media `sides[..upto]`: every medium with
/// tracks is a candidate, and so is the fitting half of a medium that is
/// long for the file; the candidate with the highest score wins, the first
/// among equals.
pub open spec fn best_candidate(
    sides: Seq<MediumInfo>,
    songs: Seq<Seq<char>>,
    file_us: int,
    upto: int,
) -> Option<(int, bool)>
    decreases upto,
{
    if upto <= 0 {
        None
    } else {
        let before = best_candidate(sides, songs, file_us, upto - 1);
        let side = sides[upto - 1];
        if side.tracks@.len() == 0 {
            before
        } else {
            let whole = (upto - 1, false);
            let with_whole = match before {
                Some(b) => if set_score(side.tracks@, songs, file_us) > set_score(
                    candidate_tracks(sides, file_us, b),
                    songs,
                    file_us,
                ) {
                    whole
                } else {
                    b
                },
                None => whole,
            };
            let half = tracks_for_duration(side.tracks@, file_us).1;
            if is_long_for(side, file_us) && half.len() > 0 && set_score(half, songs, file_us)
                > set_score(candidate_tracks(sides, file_us, with_whole), songs, file_us) {
                Some((upto - 1, true))
            } else {
                Some(with_whole)
            }
        }
    }
}

/// The tracks of a release that fit a file best.
pub open spec fn best_tracks(sides: Seq<MediumInfo>, songs: Seq<Seq<char>>, file_us: int) -> Option<
    Seq<ExpectedTrack>,
> {
    if sides.len() == 0 {
        None
    } else if sides.len() == 1 {
        Some(single_choice(sides[0], file_us))
    } else {
        match best_candidate(sides, songs, file_us, sides.len() as int) {
            Some(c) => Some(candidate_tracks(sides, file_us, c)),
            None => None,
        }
    }
}

/// Finds the tracks of a release that fit a file best: of a release of
/// one medium, the medium or its fitting half; of a release of several
/// media, the medium or half that scores highest against the songs and
/// the duration of the file.
pub fn find_best_side(sides: &Vec<MediumInfo>, file_duration_us: u64, song_titles: &Vec<String>) -> (r:
    Option<Vec<ExpectedTrack>>)
    ensures
        match r {
            Some(tracks) => best_tracks(
                sides@,
                strings_of(song_titles@),
                file_duration_us as int,
            ) == Some(tracks@),
            None => best_tracks(sides@, strings_of(song_titles@), file_duration_us as int)
                is None,
        },
{
    if sides.len() == 0 {
        return None;
    }
    let file: u128 = file_duration_us as u128;
    if sides.len() == 1 {
        if 2 * (sides[0].total_duration_us as u128) < 3 * file {
            return Some(copy_tracks(&sides[0].tracks));
        }
        let (_, half) = match_tracks_to_duration(&sides[0].tracks, file_duration_us);
        if half.len() > 0 {
            return Some(half);
        }
        return Some(copy_tracks(&sides[0].tracks));
    }
    let ghost songs = strings_of(song_titles@);
    let mut best: Option<Vec<ExpectedTrack>> = None;
    let mut best_score: u64 = 0;
    let ghost mut which: Option<(int, bool)> = None;
    let mut i: usize = 0;
    while i < sides.len()
        invariant
            i <= sides.len(),
            file == file_duration_us,
            songs == strings_of(song_titles@),
            which == best_candidate(sides@, songs, file_duration_us as int, i as int),
            match best {
                Some(tracks) => which matches Some(c) && tracks@ == candidate_tracks(
                    sides@,
                    file_duration_us as int,
                    c,
                ) && best_score == set_score(tracks@, songs, file_duration_us as int),
                None => which is None,
            },
        decreases sides.len() - i,
    {
        let side = &sides[i];
        if side.tracks.len() > 0 {
            let score = score_track_set(&side.tracks, file_duration_us, song_titles);
            if best.is_none() || score > best_score {
                best = Some(copy_tracks(&side.tracks));
                best_score = score;
                proof {
                    which = Some((i as int, false));
                }
            }
            if 10 * (side.total_duration_us as u128) > 13 * file && side.tracks.len() >= 3 {
                let (_, half) = match_tracks_to_duration(&side.tracks, file_duration_us);
                if half.len() > 0 {
                    let half_score = score_track_set(&half, file_duration_us, song_titles);
                    if half_score > best_score {
                        best = Some(half);
                        best_score = half_score;
                        proof {
                            which = Some((i as int, true));
                        }
                    }
                }
            }
        }
        i += 1;
    }
    best
}

/// The words `words[from..to]` with one space between each two.
pub open spec fn spaced(words: Seq<String>, from: int, to: int) -> Seq<char>
    decreases to - from,
{
    if to <= from {
        Seq::empty()
    } else if to == from + 1 {
        words[from]@
    } else {
        spaced(words, from, to - 1) + seq![' '] + words[to - 1]@
    }
}

fn join_words(words: &Vec<String>, from: usize, to: usize) -> (r: String)
    requires
        from <= to <= words.len(),
    ensures
        r@ == spaced(words@, from as int, to as int),
{
    let mut out: Vec<char> = Vec::new();
    let mut i: usize = from;
    while i < to
        invariant
            from <= i <= to <= words.len(),
            out@ == spaced(words@, from as int, i as int),
        decreases to - i,
    {
        if i > from {
            out.push(' ');
        }
        append_str(&mut out, words[i].as_str());
        proof {
            if i == from {
                assert(out@ =~= words@[i as int]@);
            }
        }
        i += 1;
    }
    string_of(&out)
}

/// Lists the ways to read the words of a file name as an artist and a
/// release: the first words as the artist and the rest as the release,
/// for every place between two words, the shortest artist first.
pub fn search_splits(words: &Vec<String>) -> (r: Vec<(String, String)>)
    ensures
        r@.len() == if words@.len() < 2 {
            0
        } else {
            words@.len() - 1
        },
        forall|k: int|
            0 <= k < r@.len() ==> (#[trigger] r@[k]).0@ == spaced(words@, 0, k + 1) && r@[k].1@
                == spaced(words@, k + 1, words@.len() as int),
{
    let mut out: Vec<(String, String)> = Vec::new();
    if words.len() < 2 {
        return out;
    }
    let mut split: usize = 1;
    while split < words.len()
        invariant
            1 <= split <= words.len(),
            out@.len() == split - 1,
            forall|k: int|
                0 <= k < out@.len() ==> (#[trigger] out@[k]).0@ == spaced(words@, 0, k + 1)
                    && out@[k].1@ == spaced(words@, k + 1, words@.len() as int),
        decreases words.len() - split,
    {
        let artist = join_words(words, 0, split);
        let release = join_words(words, split, words.len());
        out.push((artist, release));
        split += 1;
    }
    out
}

/// The format of a medium tells of vinyl: it holds `Vinyl`.
pub open spec fn tells_vinyl(format: Option<String>) -> bool {
    format matches Some(text) && contains_text(text@, "Vinyl"@)
}

/// Tells whether a release is on vinyl: whether the format of one of its
/// media holds `Vinyl`.
pub fn is_on_vinyl(formats: &Vec<Option<String>>) -> (r: bool)
    ensures
        r == exists|i: int| 0 <= i < formats@.len() && tells_vinyl(#[trigger] formats@[i]),
{
    let wanted = chars_of("Vinyl");
    let mut i: usize = 0;
    while i < formats.len()
        invariant
            i <= formats.len(),
            wanted@ == "Vinyl"@,
            forall|k: int| 0 <= k < i ==> !tells_vinyl(#[trigger] formats@[k]),
        decreases formats.len() - i,
    {
        match &formats[i] {
            Some(text) => {
                let chars = chars_of(text.as_str());
                if contains(&chars, &wanted) {
                    return true;
                }
            },
            None => {},
        }
        i += 1;
    }
    false
}

/// Tells whether a search result is sure enough to be looked at: whether
/// its score reaches `MIN_SEARCH_SCORE`.
pub fn is_sure_match(score: u32) -> (r: bool)
    ensures
        r == (score >= MIN_SEARCH_SCORE),
{
    score >= MIN_SEARCH_SCORE
}

} // verus!
