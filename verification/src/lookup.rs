//! Release results shared by the metadata services, and the assignment of
//! recorded files to the sides of a release.
//!
//! Durations are in microseconds. Scores are in thousandths: a file whose
//! songs all match a side of exactly its duration scores 110 000.

use crate::album_identifier::IdentifiedSong;
use crate::musicbrainz::{copy_tracks, ExpectedTrack};
use crate::text::{
    byte_len, byte_length, chars_of, contains, contains_text, lowercase_of, split_whitespace,
    texts_of, to_lowercase, words_of,
};
use vstd::prelude::*;
use vstd::string::StringExecFns;

verus! {

/// What a service found for one recorded side.
#[derive(Clone, Debug)]
pub struct AlbumSideResult {
    /// Artist name.
    pub artist: String,
    /// Title of the release.
    pub album_title: String,
    /// Reference to the release: a URL or an identifier.
    pub release_info: String,
    /// Tracks of the matched side, in order.
    pub tracks: Vec<ExpectedTrack>,
    /// Name of the service that produced the result.
    pub backend: String,
}

/// Some track of `tracks[..upto]` has a known length.
pub open spec fn some_length_known(tracks: Seq<ExpectedTrack>, upto: int) -> bool {
    exists|i: int| 0 <= i < upto && (#[trigger] tracks[i]).length_us > 0
}

/// Tells whether some track has a known length.
pub fn tracks_have_durations(tracks: &Vec<ExpectedTrack>) -> (r: bool)
    ensures
        r == some_length_known(tracks@, tracks@.len() as int),
{
    let mut i: usize = 0;
    while i < tracks.len()
        invariant
            i <= tracks.len(),
            !some_length_known(tracks@, i as int),
        decreases tracks.len() - i,
    {
        if tracks[i].length_us > 0 {
            return true;
        }
        i += 1;
    }
    false
}

impl AlbumSideResult {
    /// Whether the tracks carry usable durations: false where every track
    /// has length 0.
    pub fn has_usable_durations(&self) -> (r: bool)
        ensures
            r == some_length_known(self.tracks@, self.tracks@.len() as int),
    {
        tracks_have_durations(&self.tracks)
    }
}

/// One side of a release.
#[derive(Clone, Debug)]
pub struct SideInfo {
    /// Side letter, or '?' where it is unknown.
    pub label: char,
    /// Tracks of the side, in order.
    pub tracks: Vec<ExpectedTrack>,
    /// Total duration of the side, 0 where it is unknown.
    pub total_duration_us: u64,
}

/// A release with all its sides.
#[derive(Clone, Debug)]
pub struct AlbumResult {
    /// Artist name.
    pub artist: String,
    /// Title of the release.
    pub album_title: String,
    /// Reference to the release: a URL or an identifier.
    pub release_info: String,
    /// The sides of the release, in order.
    pub sides: Vec<SideInfo>,
    /// Name of the service that produced the result.
    pub backend: String,
}

/// Some side of `sides[..upto]` has a track of known length.
pub open spec fn some_side_known(sides: Seq<SideInfo>, upto: int) -> bool {
    exists|i: int|
        0 <= i < upto && some_length_known(
            (#[trigger] sides[i]).tracks@,
            sides[i].tracks@.len() as int,
        )
}

impl AlbumResult {
    /// Whether at least one side carries usable durations.
    pub fn has_usable_durations(&self) -> (r: bool)
        ensures
            r == some_side_known(self.sides@, self.sides@.len() as int),
    {
        let mut i: usize = 0;
        while i < self.sides.len()
            invariant
                i <= self.sides.len(),
                !some_side_known(self.sides@, i as int),
            decreases self.sides.len() - i,
        {
            if tracks_have_durations(&self.sides[i].tracks) {
                return true;
            }
            i += 1;
        }
        false
    }
}

/// What the assignment needs to know of one recorded file.
#[derive(Clone, Debug)]
pub struct FileForAssignment {
    /// Path of the file.
    pub path: String,
    /// Titles of the songs identified in the file.
    pub song_titles: Vec<String>,
    /// Duration of the music in the file.
    pub duration_us: u64,
}

/// The release and the side assigned to one recorded file.
#[derive(Clone, Debug)]
pub struct FileSideResult {
    /// Path of the file.
    pub path: String,
    /// Artist name.
    pub artist: String,
    /// Title of the release.
    pub album_title: String,
    /// Reference to the release.
    pub release_info: String,
    /// Letter of the assigned side, '?' where none was assigned.
    pub side_label: char,
    /// Tracks of the assigned side.
    pub tracks: Vec<ExpectedTrack>,
    /// Name of the service that found the release.
    pub backend: String,
    /// Score of the assignment, 0 where no side was assigned.
    pub score: u64,
}

/// Shortest word that counts in a comparison of titles, in bytes of
/// UTF-8.
pub const MIN_WORD_LEN: usize = 3;

/// Score of a file all of whose songs match a side.
pub const FULL_SONG_SCORE: u64 = 100_000;

/// Score of a file whose duration equals that of a side.
pub const FULL_DURATION_SCORE: u64 = 10_000;

/// Score for the duration where the side's duration is unknown.
pub const NEUTRAL_DURATION_SCORE: u64 = 5_000;

/// The words among `words[..upto]` of at least the minimum length.
pub open spec fn keep_long(words: Seq<Seq<char>>, upto: int) -> Seq<Seq<char>>
    decreases upto,
{
    if upto <= 0 {
        Seq::empty()
    } else if byte_len(words[upto - 1]) >= MIN_WORD_LEN {
        keep_long(words, upto - 1).push(words[upto - 1])
    } else {
        keep_long(words, upto - 1)
    }
}

/// The words of a song title that count: lower case, separated by white
/// space, at least three bytes long in UTF-8.
pub open spec fn long_words(title: Seq<char>) -> Seq<Seq<char>> {
    let words = words_of(lowercase_of(title));
    keep_long(words, words.len() as int)
}

/// Number of words among `words[..upto]` that stand in `track`.
pub open spec fn hits_in(words: Seq<Seq<char>>, track: Seq<char>, upto: int) -> int
    decreases upto,
{
    if upto <= 0 {
        0
    } else {
        hits_in(words, track, upto - 1) + if contains_text(track, words[upto - 1]) {
            1int
        } else {
            0int
        }
    }
}

/// A song with these words matches a track of this title: at least one
/// word stands in the title, and at least three words in ten do.
pub open spec fn title_matches(words: Seq<Seq<char>>, track: Seq<char>) -> bool {
    let hits = hits_in(words, track, words.len() as int);
    hits >= 1 && 10 * hits >= 3 * words.len()
}

/// A song with these words matches one of `tracks[..upto]`.
pub open spec fn matches_any(words: Seq<Seq<char>>, tracks: Seq<Seq<char>>, upto: int) -> bool {
    exists|t: int| 0 <= t < upto && title_matches(words, #[trigger] tracks[t])
}

/// Number of songs among `songs[..upto]` that match a track of `tracks`.
pub open spec fn matched_songs(songs: Seq<Seq<char>>, tracks: Seq<Seq<char>>, upto: int) -> int
    decreases upto,
{
    if upto <= 0 {
        0
    } else {
        matched_songs(songs, tracks, upto - 1) + if matches_any(
            long_words(songs[upto - 1]),
            tracks,
            tracks.len() as int,
        ) {
            1int
        } else {
            0int
        }
    }
}

/// The titles of `tracks` in lower case.
pub open spec fn lowered_titles(tracks: Seq<ExpectedTrack>) -> Seq<Seq<char>> {
    Seq::new(tracks.len(), |i: int| lowercase_of(tracks[i].title@))
}

/// Score of a file of duration `file_us` against a side of duration
/// `side_us`: full where they are equal, falling linearly to 0 at a
/// difference of a tenth of the file; neutral where the side's duration is
/// unknown.
pub open spec fn duration_score(side_us: int, file_us: int) -> int {
    if side_us <= 0 {
        NEUTRAL_DURATION_SCORE as int
    } else if file_us <= 0 {
        0
    } else {
        let diff = if side_us >= file_us {
            side_us - file_us
        } else {
            file_us - side_us
        };
        if 10 * diff >= file_us {
            0
        } else {
            FULL_DURATION_SCORE * (file_us - 10 * diff) / file_us
        }
    }
}

/// Score of a file against a side: the share of its songs that match a
/// track of the side, weighted by 100, plus the duration score, weighted by
/// 10; in thousandths, each part rounded down. 0 where the side has no
/// track or the file no song.
pub open spec fn side_score(
    songs: Seq<Seq<char>>,
    tracks: Seq<ExpectedTrack>,
    side_us: int,
    file_us: int,
) -> int {
    if tracks.len() == 0 || songs.len() == 0 {
        0
    } else {
        FULL_SONG_SCORE * matched_songs(songs, lowered_titles(tracks), songs.len() as int)
            / (songs.len() as int) + duration_score(side_us, file_us)
    }
}

pub(crate) fn lower_chars(s: &str) -> (r: Vec<char>)
    ensures
        r@ == lowercase_of(s@),
{
    let lowered = to_lowercase(s);
    chars_of(lowered.as_str())
}

pub(crate) fn title_words(title: &str) -> (r: Vec<Vec<char>>)
    ensures
        texts_of(r@) == long_words(title@),
{
    let lowered = lower_chars(title);
    let words = split_whitespace(&lowered);
    let mut out: Vec<Vec<char>> = Vec::new();
    let mut i: usize = 0;
    assert(texts_of(out@) =~= keep_long(texts_of(words@), 0));
    while i < words.len()
        invariant
            i <= words.len(),
            texts_of(out@) == keep_long(texts_of(words@), i as int),
        decreases words.len() - i,
    {
        let ghost before = texts_of(out@);
        assert(texts_of(words@)[i as int] == words@[i as int]@);
        if byte_length(&words[i]) >= MIN_WORD_LEN as u128 {
            out.push(words[i].clone());
            assert(texts_of(out@) =~= before.push(words@[i as int]@));
        }
        i += 1;
    }
    out
}

fn song_matches_track(words: &Vec<Vec<char>>, track: &Vec<char>) -> (r: bool)
    ensures
        r == title_matches(texts_of(words@), track@),
{
    let mut hits: usize = 0;
    let mut i: usize = 0;
    while i < words.len()
        invariant
            i <= words.len(),
            hits == hits_in(texts_of(words@), track@, i as int),
            hits <= i,
        decreases words.len() - i,
    {
        assert(texts_of(words@)[i as int] == words@[i as int]@);
        if contains(track, &words[i]) {
            hits += 1;
        }
        i += 1;
    }
    hits >= 1 && 10 * (hits as u128) >= 3 * (words.len() as u128)
}

pub(crate) fn duration_points(side_us: u64, file_us: u64) -> (r: u64)
    ensures
        r == duration_score(side_us as int, file_us as int),
        r <= FULL_DURATION_SCORE,
{
    if side_us == 0 {
        NEUTRAL_DURATION_SCORE
    } else if file_us == 0 {
        0
    } else {
        let diff: u128 = if side_us >= file_us {
            (side_us - file_us) as u128
        } else {
            (file_us - side_us) as u128
        };
        if 10 * diff >= file_us as u128 {
            0
        } else {
            let rest: u128 = file_us as u128 - 10 * diff;
            assert(FULL_DURATION_SCORE * rest <= 10_000 * 0xffff_ffff_ffff_ffff) by (nonlinear_arith)
                requires
                    FULL_DURATION_SCORE == 10_000,
                    0 <= rest <= 0xffff_ffff_ffff_ffff,
            ;
            let scaled: u128 = FULL_DURATION_SCORE as u128 * rest;
            let points: u128 = scaled / (file_us as u128);
            proof {
                vstd::arithmetic::div_mod::lemma_div_is_ordered(
                    scaled as int,
                    FULL_DURATION_SCORE * file_us,
                    file_us as int,
                );
                assert((FULL_DURATION_SCORE * file_us) / (file_us as int) == FULL_DURATION_SCORE)
                    by (nonlinear_arith)
                    requires
                        file_us > 0,
                ;
            }
            points as u64
        }
    }
}

/// The titles of `tracks` as sequences.
pub open spec fn titles_of(tracks: Seq<ExpectedTrack>) -> Seq<Seq<char>> {
    Seq::new(tracks.len(), |i: int| tracks[i].title@)
}

/// `titles` in lower case.
pub open spec fn lowered(titles: Seq<Seq<char>>) -> Seq<Seq<char>> {
    Seq::new(titles.len(), |i: int| lowercase_of(titles[i]))
}

/// Counts the songs that match one of the titles, which are given in
/// lower case.
pub(crate) fn count_matching_songs(song_titles: &Vec<String>, titles: &Vec<Vec<char>>) -> (r: usize)
    ensures
        r == matched_songs(
            crate::text::strings_of(song_titles@),
            texts_of(titles@),
            song_titles@.len() as int,
        ),
        r <= song_titles@.len(),
{
    let ghost songs = crate::text::strings_of(song_titles@);
    let ghost low = texts_of(titles@);
    let mut matched: usize = 0;
    let mut s: usize = 0;
    while s < song_titles.len()
        invariant
            s <= song_titles.len(),
            songs == crate::text::strings_of(song_titles@),
            texts_of(titles@) == low,
            matched == matched_songs(songs, low, s as int),
            matched <= s,
        decreases song_titles.len() - s,
    {
        assert(songs[s as int] == song_titles@[s as int]@);
        let words = title_words(song_titles[s].as_str());
        let mut hit: bool = false;
        let mut k: usize = 0;
        while k < titles.len() && !hit
            invariant
                k <= titles.len(),
                texts_of(titles@) == low,
                hit == matches_any(texts_of(words@), low, k as int),
            decreases titles.len() - k,
        {
            assert(texts_of(titles@)[k as int] == titles@[k as int]@);
            if song_matches_track(&words, &titles[k]) {
                hit = true;
            }
            k += 1;
        }
        if hit {
            matched += 1;
        }
        s += 1;
    }
    matched
}

/// The share of `matched` among `total` songs, as a score.
pub(crate) fn song_points(matched: usize, total: usize) -> (r: u64)
    requires
        matched <= total,
        total > 0,
    ensures
        r == FULL_SONG_SCORE * matched / (total as int),
        r <= FULL_SONG_SCORE,
{
    assert(FULL_SONG_SCORE == 100_000);
    let share: u128 = FULL_SONG_SCORE as u128 * matched as u128 / (total as u128);
    proof {
        let n = total as int;
        vstd::arithmetic::div_mod::lemma_div_is_ordered(
            FULL_SONG_SCORE * matched,
            FULL_SONG_SCORE * n,
            n,
        );
        assert((FULL_SONG_SCORE * n) / n == FULL_SONG_SCORE) by (nonlinear_arith)
            requires
                n > 0,
        ;
    }
    share as u64
}

/// Scores how well the songs and the duration of a file match a side.
pub fn score_file_vs_side(song_titles: &Vec<String>, side: &SideInfo, file_duration_us: u64) -> (r:
    u64)
    ensures
        r == side_score(
            crate::text::strings_of(song_titles@),
            side.tracks@,
            side.total_duration_us as int,
            file_duration_us as int,
        ),
        r <= FULL_SONG_SCORE + FULL_DURATION_SCORE,
{
    if side.tracks.len() == 0 || song_titles.len() == 0 {
        return 0;
    }
    let ghost low = lowered_titles(side.tracks@);
    let mut titles: Vec<Vec<char>> = Vec::new();
    let mut t: usize = 0;
    while t < side.tracks.len()
        invariant
            t <= side.tracks.len(),
            low == lowered_titles(side.tracks@),
            titles@.len() == t,
            forall|k: int| 0 <= k < t ==> titles@[k]@ == low[k],
        decreases side.tracks.len() - t,
    {
        titles.push(lower_chars(side.tracks[t].title.as_str()));
        t += 1;
    }
    assert(texts_of(titles@) =~= low);
    let matched = count_matching_songs(song_titles, &titles);
    song_points(matched, song_titles.len()) + duration_points(
        side.total_duration_us,
        file_duration_us,
    )
}

/// The scores of every file against every side: one row per file.
pub open spec fn score_table(files: Seq<FileForAssignment>, sides: Seq<SideInfo>) -> Seq<Seq<u64>> {
    Seq::new(
        files.len(),
        |f: int|
            Seq::new(
                sides.len(),
                |s: int|
                    side_score(
                        crate::text::strings_of(files[f].song_titles@),
                        sides[s].tracks@,
                        sides[s].total_duration_us as int,
                        files[f].duration_us as int,
                    ) as u64,
            ),
    )
}

/// `table` has `files` rows of `sides` scores each.
pub open spec fn is_table(table: Seq<Seq<u64>>, files: int, sides: int) -> bool {
    table.len() == files && forall|f: int| 0 <= f < files ==> (#[trigger] table[f]).len() == sides
}

/// The pair that is best after the sides `..upto` of the free file `f`
/// have been compared with `best`, the best pair so far: a free side
/// replaces it where it scores strictly higher, or where there is no pair
/// yet.
pub open spec fn scan_row(
    table: Seq<Seq<u64>>,
    f: int,
    used: Seq<bool>,
    best: Option<(int, int)>,
    upto: int,
) -> Option<(int, int)>
    decreases upto,
{
    if upto <= 0 {
        best
    } else {
        let before = scan_row(table, f, used, best, upto - 1);
        let s = upto - 1;
        if !used[s] && (match before {
            Some(b) => table[f][s] > table[b.0][b.1],
            None => true,
        }) {
            Some((f, s))
        } else {
            before
        }
    }
}

/// The best pair of a free file among `..upto` and a free side: the first
/// pair, file by file and side by side, with the highest score.
pub open spec fn scan_rows(
    table: Seq<Seq<u64>>,
    sides: int,
    side_of: Seq<Option<usize>>,
    used: Seq<bool>,
    upto: int,
) -> Option<(int, int)>
    decreases upto,
{
    if upto <= 0 {
        None
    } else {
        let before = scan_rows(table, sides, side_of, used, upto - 1);
        if side_of[upto - 1] is Some {
            before
        } else {
            scan_row(table, upto - 1, used, before, sides)
        }
    }
}

/// The side of each file and the sides in use after `rounds` rounds of the
/// greedy assignment. Each round assigns the best free pair, unless its
/// score is 0.
pub open spec fn assignment_after(table: Seq<Seq<u64>>, sides: int, rounds: nat) -> (
    Seq<Option<usize>>,
    Seq<bool>,
)
    decreases rounds,
{
    if rounds == 0 {
        (Seq::new(table.len(), |f: int| None::<usize>), Seq::new(sides as nat, |s: int| false))
    } else {
        let before = assignment_after(table, sides, (rounds - 1) as nat);
        match scan_rows(table, sides, before.0, before.1, table.len() as int) {
            Some(b) => if table[b.0][b.1] == 0 {
                before
            } else {
                (before.0.update(b.0, Some(b.1 as usize)), before.1.update(b.1, true))
            },
            None => before,
        }
    }
}

/// The side assigned to each file: the state of the greedy assignment
/// after as many rounds as there are files or sides, whichever is fewer.
pub open spec fn greedy_assignment(table: Seq<Seq<u64>>, sides: int) -> Seq<Option<usize>> {
    let rounds = if table.len() <= sides {
        table.len()
    } else {
        sides as nat
    };
    assignment_after(table, sides, rounds).0
}

/// No side is assigned to two files.
pub open spec fn sides_differ(side_of: Seq<Option<usize>>) -> bool {
    forall|i: int, j: int|
        0 <= i < side_of.len() && 0 <= j < side_of.len() && i != j && (#[trigger] side_of[i]) is Some
            && (#[trigger] side_of[j]) is Some ==> side_of[i] != side_of[j]
}

/// Every assigned side is a side of the release, and is marked as used.
pub open spec fn sides_in_use(side_of: Seq<Option<usize>>, used: Seq<bool>) -> bool {
    forall|i: int|
        0 <= i < side_of.len() && (#[trigger] side_of[i]) is Some ==> side_of[i]->0 < used.len()
            && used[side_of[i]->0 as int]
}

/// No two sides of the release carry the same label.
pub open spec fn labels_differ(sides: Seq<SideInfo>) -> bool {
    forall|a: int, b: int|
        0 <= a < sides.len() && 0 <= b < sides.len() && a != b ==> (#[trigger] sides[a]).label != (
        #[trigger] sides[b]).label
}

/// Text added to the service name of a file that no side was assigned to.
pub open spec fn unmatched_suffix() -> Seq<char> {
    " (no side matched)"@
}

/// `r` reports for `file` the side `choice` of `album`, with `score`.
pub open spec fn reports(
    r: FileSideResult,
    file: FileForAssignment,
    album: AlbumResult,
    choice: Option<usize>,
    score: u64,
) -> bool {
    &&& r.path == file.path
    &&& r.artist == album.artist
    &&& r.album_title == album.album_title
    &&& r.release_info == album.release_info
    &&& match choice {
        Some(s) => {
            &&& r.side_label == album.sides@[s as int].label
            &&& r.tracks@ == album.sides@[s as int].tracks@
            &&& r.backend == album.backend
            &&& r.score == score
        },
        None => {
            &&& r.side_label == '?'
            &&& r.tracks@.len() == 0
            &&& r.backend@ == album.backend@ + unmatched_suffix()
            &&& r.score == 0
        },
    }
}

/// Scores every file against every side.
pub fn score_files(files: &Vec<FileForAssignment>, sides: &Vec<SideInfo>) -> (r: Vec<Vec<u64>>)
    ensures
        r@.len() == files@.len(),
        forall|f: int| 0 <= f < files@.len() ==> (#[trigger] r@[f])@ == score_table(files@, sides@)[f],
{
    let mut table: Vec<Vec<u64>> = Vec::new();
    let mut f: usize = 0;
    while f < files.len()
        invariant
            f <= files.len(),
            table@.len() == f,
            forall|k: int| 0 <= k < f ==> (#[trigger] table@[k])@ == score_table(files@, sides@)[k],
        decreases files.len() - f,
    {
        let mut row: Vec<u64> = Vec::new();
        let mut s: usize = 0;
        while s < sides.len()
            invariant
                f < files.len(),
                s <= sides.len(),
                row@.len() == s,
                forall|k: int|
                    0 <= k < s ==> row@[k] == #[trigger] score_table(files@, sides@)[f as int][k],
            decreases sides.len() - s,
        {
            row.push(score_file_vs_side(&files[f].song_titles, &sides[s], files[f].duration_us));
            s += 1;
        }
        assert(row@ =~= score_table(files@, sides@)[f as int]);
        table.push(row);
        f += 1;
    }
    table
}

fn no_sides(n: usize) -> (r: Vec<Option<usize>>)
    ensures
        r@ == Seq::new(n as nat, |f: int| None::<usize>),
{
    let mut out: Vec<Option<usize>> = Vec::new();
    let mut k: usize = 0;
    while k < n
        invariant
            k <= n,
            out@.len() == k,
            forall|i: int| 0 <= i < k ==> out@[i] is None,
        decreases n - k,
    {
        out.push(None);
        k += 1;
    }
    assert(out@ =~= Seq::new(n as nat, |f: int| None::<usize>));
    out
}

fn no_flags(n: usize) -> (r: Vec<bool>)
    ensures
        r@ == Seq::new(n as nat, |s: int| false),
{
    let mut out: Vec<bool> = Vec::new();
    let mut k: usize = 0;
    while k < n
        invariant
            k <= n,
            out@.len() == k,
            forall|i: int| 0 <= i < k ==> !out@[i],
        decreases n - k,
    {
        out.push(false);
        k += 1;
    }
    assert(out@ =~= Seq::new(n as nat, |s: int| false));
    out
}

/// The rows of a table of scores, as sequences.
pub open spec fn rows_of(table: Seq<Vec<u64>>) -> Seq<Seq<u64>> {
    table.map_values(|row: Vec<u64>| row@)
}

/// Assigns sides to files greedily: as often as there are files or sides,
/// whichever is fewer, takes the pair of a free file and a free side with
/// the highest score, the first such pair among equals, and assigns it
/// unless the score is 0. No side goes to two files.
pub fn assign_greedily(table: &Vec<Vec<u64>>, sides: usize) -> (r: Vec<Option<usize>>)
    requires
        is_table(rows_of(table@), table@.len() as int, sides as int),
    ensures
        r@ == greedy_assignment(rows_of(table@), sides as int),
        r@.len() == table@.len(),
        sides_differ(r@),
        forall|i: int| 0 <= i < r@.len() && (#[trigger] r@[i]) is Some ==> r@[i]->0 < sides,
{
    let files: usize = table.len();
    let ghost rows = rows_of(table@);
    let mut side_of: Vec<Option<usize>> = no_sides(files);
    let mut used: Vec<bool> = no_flags(sides);
    let rounds: usize = if files <= sides { files } else { sides };
    let mut round: usize = 0;
    while round < rounds
        invariant
            round <= rounds,
            files == table.len(),
            rows == rows_of(table@),
            is_table(rows, files as int, sides as int),
            side_of@.len() == files,
            used@.len() == sides,
            (side_of@, used@) == assignment_after(rows, sides as int, round as nat),
            sides_differ(side_of@),
            sides_in_use(side_of@, used@),
        decreases rounds - round,
    {
        let mut best: Option<(usize, usize)> = None;
        let mut f: usize = 0;
        while f < files
            invariant
                f <= files,
                files == table.len(),
                rows == rows_of(table@),
                is_table(rows, files as int, sides as int),
                side_of@.len() == files,
                used@.len() == sides,
                match best {
                    Some(b) => scan_rows(rows, sides as int, side_of@, used@, f as int) == Some(
                        (b.0 as int, b.1 as int),
                    ) && b.0 < f && b.1 < sides && side_of@[b.0 as int] is None && !used@[b.1 as int],
                    None => scan_rows(rows, sides as int, side_of@, used@, f as int) is None,
                },
            decreases files - f,
        {
            if side_of[f].is_none() {
                let mut s: usize = 0;
                let ghost start: Option<(int, int)> = scan_rows(
                    rows,
                    sides as int,
                    side_of@,
                    used@,
                    f as int,
                );
                while s < sides
                    invariant
                        s <= sides,
                        f < files,
                        files == table.len(),
                        rows == rows_of(table@),
                        is_table(rows, files as int, sides as int),
                        side_of@.len() == files,
                        side_of@[f as int] is None,
                        used@.len() == sides,
                        match best {
                            Some(b) => scan_row(rows, f as int, used@, start, s as int) == Some(
                                (b.0 as int, b.1 as int),
                            ) && b.0 <= f && b.1 < sides && side_of@[b.0 as int] is None && !used@[b.1 as int],
                            None => scan_row(rows, f as int, used@, start, s as int) is None,
                        },
                    decreases sides - s,
                {
                    assert(rows[f as int] == table@[f as int]@);
                    let better: bool = match best {
                        Some(b) => {
                            assert(rows[b.0 as int] == table@[b.0 as int]@);
                            table[f][s] > table[b.0][b.1]
                        },
                        None => true,
                    };
                    if !used[s] && better {
                        best = Some((f, s));
                    }
                    s += 1;
                }
            }
            f += 1;
        }
        match best {
            Some(b) => {
                assert(rows[b.0 as int] == table@[b.0 as int]@);
                if table[b.0][b.1] != 0 {
                    let ghost before = side_of@;
                    side_of.set(b.0, Some(b.1));
                    used.set(b.1, true);
                    assert forall|i: int, j: int|
                        0 <= i < side_of@.len() && 0 <= j < side_of@.len() && i != j && (
                        #[trigger] side_of@[i]) is Some && (#[trigger] side_of@[j]) is Some implies side_of@[i]
                        != side_of@[j] by {
                        if i == b.0 {
                            assert(before[j] is Some);
                        } else if j == b.0 {
                            assert(before[i] is Some);
                        } else {
                            assert(before[i] is Some && before[j] is Some);
                        }
                    }
                    assert forall|i: int|
                        0 <= i < side_of@.len() && (#[trigger] side_of@[i]) is Some implies side_of@[i]->0
                        < used@.len() && used@[side_of@[i]->0 as int] by {
                        if i != b.0 {
                            assert(before[i] is Some);
                        }
                    }
                }
            },
            None => {},
        }
        round += 1;
    }
    side_of
}

/// Copies a text.
fn copy_text(s: &String) -> (r: String)
    ensures
        r == *s,
{
    s.clone()
}

/// Assigns each recorded file to a side of `album`.
///
/// Every file is scored against every side, and sides are assigned
/// greedily by score. The result has one entry per file, in the order of
/// the files. A file without a side still carries the artist and the title
/// of the release, with the label '?' and no tracks. No side is assigned
/// twice; where the sides of the release have different labels, the
/// labels of the assigned files differ too.
pub fn assign_files_to_album_sides(files: &Vec<FileForAssignment>, album: &AlbumResult) -> (r: Vec<
    FileSideResult,
>)
    ensures
        r@.len() == files@.len(),
        forall|i: int|
            0 <= i < files@.len() ==> reports(
                #[trigger] r@[i],
                files@[i],
                *album,
                greedy_assignment(score_table(files@, album.sides@), album.sides@.len() as int)[i],
                match greedy_assignment(
                    score_table(files@, album.sides@),
                    album.sides@.len() as int,
                )[i] {
                    Some(s) => score_table(files@, album.sides@)[i][s as int],
                    None => 0,
                },
            ),
        sides_differ(
            greedy_assignment(score_table(files@, album.sides@), album.sides@.len() as int),
        ),
        labels_differ(album.sides@) ==> forall|i: int, j: int|
            0 <= i < files@.len() && 0 <= j < files@.len() && i != j && greedy_assignment(
                score_table(files@, album.sides@),
                album.sides@.len() as int,
            )[i] is Some && greedy_assignment(
                score_table(files@, album.sides@),
                album.sides@.len() as int,
            )[j] is Some ==> (#[trigger] r@[i]).side_label != (#[trigger] r@[j]).side_label,
{
    let table = score_files(files, &album.sides);
    let ghost rows = score_table(files@, album.sides@);
    assert(rows_of(table@) =~= rows);
    let side_of = assign_greedily(&table, album.sides.len());
    let ghost choice = greedy_assignment(rows, album.sides@.len() as int);
    let mut out: Vec<FileSideResult> = Vec::new();
    let mut i: usize = 0;
    while i < files.len()
        invariant
            i <= files.len(),
            rows == score_table(files@, album.sides@),
            rows_of(table@) == rows,
            table@.len() == files@.len(),
            side_of@ == choice,
            side_of@.len() == files@.len(),
            forall|k: int|
                0 <= k < side_of@.len() && (#[trigger] side_of@[k]) is Some ==> side_of@[k]->0
                    < album.sides@.len(),
            out@.len() == i,
            forall|k: int|
                0 <= k < i ==> reports(
                    #[trigger] out@[k],
                    files@[k],
                    *album,
                    choice[k],
                    match choice[k] {
                        Some(s) => rows[k][s as int],
                        None => 0,
                    },
                ),
        decreases files.len() - i,
    {
        let entry = match side_of[i] {
            Some(s) => {
                assert(rows[i as int] == table@[i as int]@);
                FileSideResult {
                    path: copy_text(&files[i].path),
                    artist: copy_text(&album.artist),
                    album_title: copy_text(&album.album_title),
                    release_info: copy_text(&album.release_info),
                    side_label: album.sides[s].label,
                    tracks: copy_tracks(&album.sides[s].tracks),
                    backend: copy_text(&album.backend),
                    score: table[i][s],
                }
            },
            None => {
                let mut backend = copy_text(&album.backend);
                backend.append(" (no side matched)");
                FileSideResult {
                    path: copy_text(&files[i].path),
                    artist: copy_text(&album.artist),
                    album_title: copy_text(&album.album_title),
                    release_info: copy_text(&album.release_info),
                    side_label: '?',
                    tracks: Vec::new(),
                    backend,
                    score: 0,
                }
            },
        };
        out.push(entry);
        i += 1;
    }
    out
}

/// `album` is the release made of the one side `side`: it carries the
/// side under the label `?`, with the lengths of its tracks added up.
pub open spec fn is_album_of_side(album: AlbumResult, side: AlbumSideResult) -> bool {
    &&& album.artist == side.artist
    &&& album.album_title == side.album_title
    &&& album.release_info == side.release_info
    &&& album.backend == side.backend
    &&& album.sides@.len() == 1
    &&& album.sides@[0].label == '?'
    &&& album.sides@[0].tracks == side.tracks
    &&& album.sides@[0].total_duration_us == clamped_total(
        side.tracks@,
        side.tracks@.len() as int,
    )
}

/// `album` is the answer for a release that the answer `side` for a side
/// makes: the release of the side found, nothing for nothing, the failure
/// for a failure.
pub open spec fn answers_album(
    side: Result<Option<AlbumSideResult>, String>,
    album: Result<Option<AlbumResult>, String>,
) -> bool {
    match side {
        Ok(Some(found)) => album matches Ok(Some(release)) && is_album_of_side(release, found),
        Ok(None) => album matches Ok(None),
        Err(e) => album matches Err(f) && f == e,
    }
}

/// Makes the answer for a release of the answer for a side.
pub fn album_answer(side: Result<Option<AlbumSideResult>, String>) -> (r: Result<
    Option<AlbumResult>,
    String,
>)
    ensures
        answers_album(side, r),
{
    match side {
        Ok(Some(found)) => Ok(Some(album_from_side(found))),
        Ok(None) => Ok(None),
        Err(e) => Err(e),
    }
}

/// A service that finds the release and the side that identified songs
/// belong to.
///
/// What a service answers is not a function of the question: it may fail
/// today and answer tomorrow. A service says which answers it may give;
/// where it says nothing, every answer is possible.
pub trait AlbumIdentifier {
    /// Whether `answer` is an answer that the service may give when asked
    /// for the side of a file with these songs and this duration.
    open spec fn may_find_side(
        &self,
        songs: Seq<IdentifiedSong>,
        file_duration_us: u64,
        answer: Result<Option<AlbumSideResult>, String>,
    ) -> bool {
        true
    }

    /// Whether `answer` is an answer of its own that the service may give
    /// when asked for the release with these songs.
    open spec fn may_find_album(
        &self,
        songs: Seq<IdentifiedSong>,
        file_duration_us: u64,
        answer: Result<Option<AlbumResult>, String>,
    ) -> bool {
        true
    }

    /// Whether `answer` is an answer of its own that the service may give
    /// when asked for the track lengths of a release.
    open spec fn may_fetch_durations(
        &self,
        artist: Seq<char>,
        album_title: Seq<char>,
        track_titles: Seq<Seq<char>>,
        file_duration_us: u64,
        answer: Result<Option<Vec<ExpectedTrack>>, String>,
    ) -> bool {
        true
    }

    /// The name of the service. A service that does not say what it is
    /// leaves it open.
    open spec fn name_of(&self) -> Seq<char> {
        arbitrary()
    }

    /// Returns the name of the service.
    fn name(&self) -> (r: String)
        ensures
            r@ == self.name_of(),
    ;

    /// Looks for the side that matches the songs and the duration of a
    /// file. Nothing found is no error.
    fn find_album_side(&self, songs: &Vec<IdentifiedSong>, file_duration_us: u64) -> (r: Result<
        Option<AlbumSideResult>,
        String,
    >)
        ensures
            self.may_find_side(songs@, file_duration_us, r),
    ;

    /// Looks for the release that matches the songs, with all its sides.
    /// A service that knows of one side only returns a release of that
    /// side, labelled `?`.
    fn find_album(&self, songs: &Vec<IdentifiedSong>, file_duration_us: u64) -> (r: Result<
        Option<AlbumResult>,
        String,
    >)
        ensures
            self.may_find_album(songs@, file_duration_us, r) || exists|
                side: Result<Option<AlbumSideResult>, String>,
            |
                #[trigger] self.may_find_side(songs@, file_duration_us, side) && answers_album(
                    side,
                    r,
                ),
        default_ensures
            exists|side: Result<Option<AlbumSideResult>, String>|
                #[trigger] self.may_find_side(songs@, file_duration_us, side) && answers_album(
                    side,
                    r,
                ),
    {
        let side = self.find_album_side(songs, file_duration_us);
        let ghost asked = side;
        let album = album_answer(side);
        assert(self.may_find_side(songs@, file_duration_us, asked) && answers_album(asked, album));
        album
    }

    /// Looks for the track lengths of a release that another service
    /// found. A service that cannot help returns nothing.
    fn fetch_durations_for_album(
        &self,
        artist: &str,
        album_title: &str,
        track_titles: &Vec<String>,
        file_duration_us: u64,
    ) -> (r: Result<Option<Vec<ExpectedTrack>>, String>)
        ensures
            self.may_fetch_durations(
                artist@,
                album_title@,
                crate::text::strings_of(track_titles@),
                file_duration_us,
                r,
            ) || r matches Ok(None),
        default_ensures
            r matches Ok(None),
    {
        Ok(None)
    }
}

/// Sum of the lengths of `tracks[..upto]`, held within the range of a
/// duration.
pub open spec fn clamped_total(tracks: Seq<ExpectedTrack>, upto: int) -> u64
    decreases upto,
{
    if upto <= 0 {
        0
    } else {
        let sum = clamped_total(tracks, upto - 1) + tracks[upto - 1].length_us;
        if sum > u64::MAX {
            u64::MAX
        } else {
            sum as u64
        }
    }
}

/// Returns the sum of the lengths of the tracks, held within the range of
/// a duration.
pub fn total_length(tracks: &Vec<ExpectedTrack>) -> (r: u64)
    ensures
        r == clamped_total(tracks@, tracks@.len() as int),
{
    let mut total: u64 = 0;
    let mut i: usize = 0;
    while i < tracks.len()
        invariant
            i <= tracks.len(),
            total == clamped_total(tracks@, i as int),
        decreases tracks.len() - i,
    {
        let length = tracks[i].length_us;
        total = if length > u64::MAX - total { u64::MAX } else { total + length };
        i += 1;
    }
    total
}

/// Makes a release of the one side that a service found: the side carries
/// the label `?`.
pub fn album_from_side(side: AlbumSideResult) -> (r: AlbumResult)
    ensures
        r.artist == side.artist,
        r.album_title == side.album_title,
        r.release_info == side.release_info,
        r.backend == side.backend,
        r.sides@.len() == 1,
        r.sides@[0].label == '?',
        r.sides@[0].tracks == side.tracks,
        r.sides@[0].total_duration_us == clamped_total(side.tracks@, side.tracks@.len() as int),
{
    let total = total_length(&side.tracks);
    let mut sides: Vec<SideInfo> = Vec::new();
    sides.push(SideInfo { label: '?', tracks: side.tracks, total_duration_us: total });
    AlbumResult {
        artist: side.artist,
        album_title: side.album_title,
        release_info: side.release_info,
        sides,
        backend: side.backend,
    }
}

/// Track lengths are of use where there is a track and the lengths do not
/// add up to 0.
pub open spec fn is_usable(tracks: Seq<ExpectedTrack>) -> bool {
    tracks.len() > 0 && some_length_known(tracks, tracks.len() as int)
}

/// The name of the service of a result whose track lengths came from
/// `other`.
pub open spec fn enriched_backend(backend: Seq<char>, other: Seq<char>) -> Seq<char> {
    backend + " + "@ + other + " (durations)"@
}

/// Takes over the track lengths that the service `other` found for a
/// result, where they are of use; else the result stays as it is. Tells
/// whether they were taken over.
pub fn apply_durations(result: &mut AlbumSideResult, enriched: Vec<ExpectedTrack>, other: &str) -> (r:
    bool)
    ensures
        r == is_usable(enriched@),
        final(result).artist == old(result).artist,
        final(result).album_title == old(result).album_title,
        final(result).release_info == old(result).release_info,
        r ==> final(result).tracks == enriched && final(result).backend@ == enriched_backend(
            old(result).backend@,
            other@,
        ),
        !r ==> *final(result) == *old(result),
{
    if enriched.len() > 0 && tracks_have_durations(&enriched) {
        result.tracks = enriched;
        result.backend.append(" + ");
        result.backend.append(other);
        result.backend.append(" (durations)");
        true
    } else {
        false
    }
}

/// Returns the titles of the tracks of a result.
pub fn track_titles(result: &AlbumSideResult) -> (r: Vec<String>)
    ensures
        crate::text::strings_of(r@) == titles_of(result.tracks@),
{
    let mut out: Vec<String> = Vec::new();
    let mut i: usize = 0;
    while i < result.tracks.len()
        invariant
            i <= result.tracks.len(),
            out@.len() == i,
            forall|k: int| 0 <= k < i ==> (#[trigger] out@[k])@ == result.tracks@[k].title@,
        decreases result.tracks.len() - i,
    {
        out.push(result.tracks[i].title.clone());
        i += 1;
    }
    assert(crate::text::strings_of(out@) =~= titles_of(result.tracks@));
    out
}

/// What an answer of a service brings: what it found, nothing where it
/// found nothing or failed.
pub open spec fn brought<T>(answer: Result<Option<T>, String>) -> Option<T> {
    match answer {
        Ok(Some(found)) => Some(found),
        _ => None,
    }
}

/// Reads the answer of a service: a service that fails counts as one that
/// finds nothing.
pub fn answer_of<T>(answer: Result<Option<T>, String>) -> (r: Option<T>)
    ensures
        r == brought(answer),
{
    match answer {
        Ok(Some(found)) => Some(found),
        _ => None,
    }
}

/// Whether `answer` is an answer that the service may give when asked
/// for a release: one of its own, or its answer for a side made into a
/// release.
pub open spec fn may_answer_album<B: AlbumIdentifier>(
    service: B,
    songs: Seq<IdentifiedSong>,
    file_duration_us: u64,
    answer: Result<Option<AlbumResult>, String>,
) -> bool {
    service.may_find_album(songs, file_duration_us, answer) || exists|
        side: Result<Option<AlbumSideResult>, String>,
    |
        #[trigger] service.may_find_side(songs, file_duration_us, side) && answers_album(
            side,
            answer,
        )
}

/// The service may fail to bring a release: it may find none, or fail.
pub open spec fn may_find_no_album<B: AlbumIdentifier>(
    service: B,
    songs: Seq<IdentifiedSong>,
    file_duration_us: u64,
) -> bool {
    exists|answer: Result<Option<AlbumResult>, String>|
        #[trigger] may_answer_album(service, songs, file_duration_us, answer) && brought(answer)
            is None
}

/// The service may fail to bring a side: it may find none, or fail.
pub open spec fn may_find_no_side<B: AlbumIdentifier>(
    service: B,
    songs: Seq<IdentifiedSong>,
    file_duration_us: u64,
) -> bool {
    exists|answer: Result<Option<AlbumSideResult>, String>|
        #[trigger] service.may_find_side(songs, file_duration_us, answer) && brought(answer)
            is None
}

/// Whether `answer` is an answer that the service may give when asked
/// for the track lengths of the side `found`: one of its own, or nothing.
pub open spec fn may_offer<B: AlbumIdentifier>(
    service: B,
    found: AlbumSideResult,
    file_duration_us: u64,
    answer: Result<Option<Vec<ExpectedTrack>>, String>,
) -> bool {
    service.may_fetch_durations(
        found.artist@,
        found.album_title@,
        titles_of(found.tracks@),
        file_duration_us,
        answer,
    ) || answer matches Ok(None)
}

/// The answer brings track lengths that are of use.
pub open spec fn is_offer_of_use(answer: Result<Option<Vec<ExpectedTrack>>, String>) -> bool {
    brought(answer) matches Some(offer) && is_usable(offer@)
}

/// The service may fail to bring track lengths of use for the side
/// `found`.
pub open spec fn may_offer_nothing<B: AlbumIdentifier>(
    service: B,
    found: AlbumSideResult,
    file_duration_us: u64,
) -> bool {
    exists|answer: Result<Option<Vec<ExpectedTrack>>, String>|
        #[trigger] may_offer(service, found, file_duration_us, answer) && !is_offer_of_use(answer)
}

/// `result` is the side `found`, which the service at `by` brought, with
/// the track lengths that the service at `from` offered: the first of the
/// other services whose lengths are of use. The result names both
/// services.
pub open spec fn is_enriched_by<B: AlbumIdentifier>(
    result: AlbumSideResult,
    found: AlbumSideResult,
    services: Seq<B>,
    by: int,
    from: int,
    file_duration_us: u64,
) -> bool {
    &&& 0 <= from < services.len() && from != by
    &&& may_offer(services[from], found, file_duration_us, Ok(Some(result.tracks)))
    &&& is_usable(result.tracks@)
    &&& forall|m: int|
        0 <= m < from && m != by ==> may_offer_nothing(
            #[trigger] services[m],
            found,
            file_duration_us,
        )
    &&& result.artist == found.artist
    &&& result.album_title == found.album_title
    &&& result.release_info == found.release_info
    &&& result.backend@ == enriched_backend(found.backend@, services[from].name_of())
}

/// `result` is what becomes of the side `found`, which the service at `by`
/// brought: with track lengths of its own it stays as it is; without, it
/// takes them from the first other service that offers lengths of use, and
/// stays as it is where none may.
pub open spec fn completes<B: AlbumIdentifier>(
    result: AlbumSideResult,
    found: AlbumSideResult,
    services: Seq<B>,
    by: int,
    file_duration_us: u64,
) -> bool {
    if some_length_known(found.tracks@, found.tracks@.len() as int) {
        result == found
    } else {
        ||| {
            &&& result == found
            &&& forall|m: int|
                0 <= m < services.len() && m != by ==> may_offer_nothing(
                    #[trigger] services[m],
                    found,
                    file_duration_us,
                )
        }
        ||| exists|from: int|
            #[trigger] is_enriched_by(result, found, services, by, from, file_duration_us)
    }
}

/// Asks the services in turn for the side that matches the songs, and
/// returns what the first one finds. A service that fails counts as one
/// that finds nothing. Where the side found lacks track lengths, the other
/// services are asked for them in turn, and the first lengths of use are
/// taken over.
pub fn find_album_side_with_fallback<B: AlbumIdentifier>(
    backends: &Vec<B>,
    songs: &Vec<IdentifiedSong>,
    file_duration_us: u64,
) -> (r: Result<Option<AlbumSideResult>, String>)
    ensures
        r is Ok,
        backends@.len() == 0 ==> (r matches Ok(found) && found is None),
        r matches Ok(Some(result)) ==> exists|by: int, found: AlbumSideResult|
            {
                &&& 0 <= by < backends@.len()
                &&& #[trigger] backends@[by].may_find_side(
                    songs@,
                    file_duration_us,
                    Ok(Some(found)),
                )
                &&& forall|k: int|
                    0 <= k < by ==> may_find_no_side(
                        #[trigger] backends@[k],
                        songs@,
                        file_duration_us,
                    )
                &&& completes(result, found, backends@, by, file_duration_us)
            },
        r matches Ok(None) ==> forall|k: int|
            0 <= k < backends@.len() ==> may_find_no_side(
                #[trigger] backends@[k],
                songs@,
                file_duration_us,
            ),
{
    let mut i: usize = 0;
    while i < backends.len()
        invariant
            i <= backends.len(),
            forall|k: int|
                0 <= k < i ==> may_find_no_side(#[trigger] backends@[k], songs@, file_duration_us),
        decreases backends.len() - i,
    {
        let answer = backends[i].find_album_side(songs, file_duration_us);
        let ghost asked = answer;
        match answer_of(answer) {
            Some(found) => {
                let ghost first = found;
                assert(asked == Ok::<Option<AlbumSideResult>, String>(Some(first)));
                let mut result = found;
                if !result.has_usable_durations() {
                    let titles = track_titles(&result);
                    let mut done: bool = false;
                    let ghost mut from: int = 0;
                    let mut j: usize = 0;
                    while j < backends.len() && !done
                        invariant
                            j <= backends.len(),
                            i < backends.len(),
                            crate::text::strings_of(titles@) == titles_of(first.tracks@),
                            !done ==> result == first,
                            !done ==> forall|m: int|
                                0 <= m < j && m != i ==> may_offer_nothing(
                                    #[trigger] backends@[m],
                                    first,
                                    file_duration_us,
                                ),
                            done ==> is_enriched_by(
                                result,
                                first,
                                backends@,
                                i as int,
                                from,
                                file_duration_us,
                            ),
                        decreases backends.len() - j + if done { 0int } else { 1int },
                    {
                        if j != i {
                            let offer = backends[j].fetch_durations_for_album(
                                result.artist.as_str(),
                                result.album_title.as_str(),
                                &titles,
                                file_duration_us,
                            );
                            let ghost offered = offer;
                            assert(may_offer(backends@[j as int], first, file_duration_us, offered));
                            match answer_of(offer) {
                                Some(enriched) => {
                                    let ghost lengths = enriched;
                                    let other = backends[j].name();
                                    done = apply_durations(&mut result, enriched, other.as_str());
                                    proof {
                                        if done {
                                            from = j as int;
                                            assert(offered == Ok::<
                                                Option<Vec<ExpectedTrack>>,
                                                String,
                                            >(Some(result.tracks)));
                                            assert(result.backend@ == enriched_backend(
                                                first.backend@,
                                                backends@[j as int].name_of(),
                                            ));
                                        } else {
                                            assert(!is_offer_of_use(offered));
                                        }
                                    }
                                },
                                None => {
                                    assert(!is_offer_of_use(offered));
                                },
                            }
                        }
                        j += 1;
                    }
                }
                assert(completes(result, first, backends@, i as int, file_duration_us));
                assert(backends@[i as int].may_find_side(
                    songs@,
                    file_duration_us,
                    Ok(Some(first)),
                ));
                return Ok(Some(result));
            },
            None => {
                assert(may_find_no_side(backends@[i as int], songs@, file_duration_us)) by {
                    assert(backends@[i as int].may_find_side(songs@, file_duration_us, asked)
                        && brought(asked) is None);
                }
            },
        }
        i += 1;
    }
    Ok(None)
}

/// Asks the services in turn for the release that matches the songs, and
/// returns what the first one finds. A service that fails counts as one
/// that finds nothing.
pub fn find_album_with_fallback<B: AlbumIdentifier>(
    backends: &Vec<B>,
    songs: &Vec<IdentifiedSong>,
    file_duration_us: u64,
) -> (r: Result<Option<AlbumResult>, String>)
    ensures
        r is Ok,
        backends@.len() == 0 ==> (r matches Ok(found) && found is None),
        r matches Ok(Some(album)) ==> exists|by: int|
            {
                &&& 0 <= by < backends@.len()
                &&& may_answer_album(
                    #[trigger] backends@[by],
                    songs@,
                    file_duration_us,
                    Ok(Some(album)),
                )
                &&& forall|k: int|
                    0 <= k < by ==> may_find_no_album(
                        #[trigger] backends@[k],
                        songs@,
                        file_duration_us,
                    )
            },
        r matches Ok(None) ==> forall|k: int|
            0 <= k < backends@.len() ==> may_find_no_album(
                #[trigger] backends@[k],
                songs@,
                file_duration_us,
            ),
{
    let mut i: usize = 0;
    while i < backends.len()
        invariant
            i <= backends.len(),
            forall|k: int|
                0 <= k < i ==> may_find_no_album(#[trigger] backends@[k], songs@, file_duration_us),
        decreases backends.len() - i,
    {
        let answer = backends[i].find_album(songs, file_duration_us);
        let ghost asked = answer;
        assert(may_answer_album(backends@[i as int], songs@, file_duration_us, asked));
        match answer_of(answer) {
            Some(found) => {
                assert(asked == Ok::<Option<AlbumResult>, String>(Some(found)));
                return Ok(Some(found));
            },
            None => {
                assert(may_find_no_album(backends@[i as int], songs@, file_duration_us));
            },
        }
        i += 1;
    }
    Ok(None)
}

} // verus!
