//! Finding the release of a group of files that come from one record.
//!
//! Durations are in microseconds.

use crate::album_identifier::{copy_song, IdentifiedSong};
use crate::discogs::{lengths_before, starts_are_cumulative, track_number, DiscogsSide};
use crate::lookup::{
    hits_in, long_words, lower_chars, some_length_known, title_words, tracks_have_durations,
};
use crate::musicbrainz::{copy_tracks, ExpectedTrack};
use crate::text::{contains, lowercase_of, same_chars, strings_of, texts_of};
use vstd::prelude::*;
use vstd::string::StringExecFns;

verus! {

/// What is known of one file of the group.
#[derive(Clone, Debug)]
pub struct FileInfo {
    /// Path of the file.
    pub path: String,
    /// Songs identified in the file.
    pub songs: Vec<IdentifiedSong>,
    /// Duration of the music in the file.
    pub music_duration_us: u64,
}

/// The release and the side found for one file of the group.
#[derive(Clone, Debug)]
pub struct FileSideResult {
    /// Path of the file.
    pub path: String,
    /// Artist name.
    pub artist: String,
    /// Title of the release.
    pub album_title: String,
    /// Reference to the release.
    pub release_info: String,
    /// Letter of the assigned side.
    pub side_label: char,
    /// Tracks of the assigned side.
    pub tracks: Vec<ExpectedTrack>,
    /// Name of the service that found the release.
    pub backend: String,
}

/// The songs of the files `files[..upto]`, file by file.
pub open spec fn all_songs(files: Seq<FileInfo>, upto: int) -> Seq<IdentifiedSong>
    decreases upto,
{
    if upto <= 0 {
        Seq::empty()
    } else {
        all_songs(files, upto - 1) + files[upto - 1].songs@
    }
}

/// Two songs are the same but for case: their artists and their titles
/// agree in lower case.
pub open spec fn same_song(a: IdentifiedSong, b: IdentifiedSong) -> bool {
    lowercase_of(a.artist@) == lowercase_of(b.artist@) && lowercase_of(a.title@) == lowercase_of(
        b.title@,
    )
}

/// Some song among `songs[..upto]` is the same as `song`.
pub open spec fn heard_before(songs: Seq<IdentifiedSong>, song: IdentifiedSong, upto: int) -> bool {
    exists|j: int| 0 <= j < upto && same_song(#[trigger] songs[j], song)
}

/// The songs among `songs[..upto]` that were not heard before, in order.
pub open spec fn first_hearings(songs: Seq<IdentifiedSong>, upto: int) -> Seq<IdentifiedSong>
    decreases upto,
{
    if upto <= 0 {
        Seq::empty()
    } else if heard_before(songs, songs[upto - 1], upto - 1) {
        first_hearings(songs, upto - 1)
    } else {
        first_hearings(songs, upto - 1).push(songs[upto - 1])
    }
}

/// Puts the songs of all files into one list, each song once: of songs
/// that agree in artist and title but for case, the first stays.
pub fn pool_songs(files: &Vec<FileInfo>) -> (r: Vec<IdentifiedSong>)
    ensures
        r@ == first_hearings(
            all_songs(files@, files@.len() as int),
            all_songs(files@, files@.len() as int).len() as int,
        ),
{
    let mut songs: Vec<IdentifiedSong> = Vec::new();
    let mut f: usize = 0;
    while f < files.len()
        invariant
            f <= files.len(),
            songs@ == all_songs(files@, f as int),
        decreases files.len() - f,
    {
        let mut s: usize = 0;
        let ghost before = songs@;
        while s < files[f].songs.len()
            invariant
                f < files.len(),
                s <= files@[f as int].songs@.len(),
                songs@ == before + files@[f as int].songs@.take(s as int),
            decreases files@[f as int].songs@.len() - s,
        {
            songs.push(copy_song(&files[f].songs[s]));
            s += 1;
            assert(files@[f as int].songs@.take(s as int) == files@[f as int].songs@.take(s - 1).push(
                files@[f as int].songs@[s - 1],
            ));
            assert(songs@ =~= before + files@[f as int].songs@.take(s as int));
        }
        assert(files@[f as int].songs@.take(files@[f as int].songs@.len() as int)
            == files@[f as int].songs@);
        f += 1;
    }
    let mut keys: Vec<(Vec<char>, Vec<char>)> = Vec::new();
    let mut i: usize = 0;
    while i < songs.len()
        invariant
            i <= songs.len(),
            keys@.len() == i,
            forall|k: int|
                0 <= k < i ==> (#[trigger] keys@[k]).0@ == lowercase_of(songs@[k].artist@)
                    && keys@[k].1@ == lowercase_of(songs@[k].title@),
        decreases songs.len() - i,
    {
        keys.push((lower_chars(songs[i].artist.as_str()), lower_chars(songs[i].title.as_str())));
        i += 1;
    }
    let mut pooled: Vec<IdentifiedSong> = Vec::new();
    let mut k: usize = 0;
    while k < songs.len()
        invariant
            k <= songs.len(),
            keys@.len() == songs@.len(),
            forall|m: int|
                0 <= m < songs@.len() ==> (#[trigger] keys@[m]).0@ == lowercase_of(
                    songs@[m].artist@,
                ) && keys@[m].1@ == lowercase_of(songs@[m].title@),
            pooled@ == first_hearings(songs@, k as int),
        decreases songs.len() - k,
    {
        let mut heard: bool = false;
        let mut j: usize = 0;
        while j < k
            invariant
                j <= k < songs.len(),
                keys@.len() == songs@.len(),
                forall|m: int|
                    0 <= m < songs@.len() ==> (#[trigger] keys@[m]).0@ == lowercase_of(
                        songs@[m].artist@,
                    ) && keys@[m].1@ == lowercase_of(songs@[m].title@),
                heard == heard_before(songs@, songs@[k as int], j as int),
            decreases k - j,
        {
            assert(keys@[j as int].0@ == lowercase_of(songs@[j as int].artist@));
            assert(keys@[k as int].0@ == lowercase_of(songs@[k as int].artist@));
            if same_chars(&keys[j].0, &keys[k].0) && same_chars(&keys[j].1, &keys[k].1) {
                assert(same_song(songs@[j as int], songs@[k as int]));
                heard = true;
            }
            j += 1;
        }
        if !heard {
            pooled.push(copy_song(&songs[k]));
        }
        k += 1;
    }
    pooled
}

/// `tracks` with every start set to the sum of the lengths before it.
pub fn rebuild_expected_starts(tracks: &Vec<ExpectedTrack>) -> (r: Vec<ExpectedTrack>)
    requires
        lengths_before(tracks@, tracks@.len() as int) <= u64::MAX,
    ensures
        r@.len() == tracks@.len(),
        forall|i: int|
            0 <= i < r@.len() ==> {
                &&& (#[trigger] r@[i]).position == tracks@[i].position
                &&& r@[i].title == tracks@[i].title
                &&& r@[i].length_us == tracks@[i].length_us
            },
        starts_are_cumulative(r@),
{
    let mut out: Vec<ExpectedTrack> = Vec::new();
    let mut cumulative: u64 = 0;
    let mut i: usize = 0;
    while i < tracks.len()
        invariant
            i <= tracks.len(),
            lengths_before(tracks@, tracks@.len() as int) <= u64::MAX,
            out@.len() == i,
            cumulative == lengths_before(tracks@, i as int),
            forall|k: int|
                0 <= k < i ==> {
                    &&& (#[trigger] out@[k]).position == tracks@[k].position
                    &&& out@[k].title == tracks@[k].title
                    &&& out@[k].length_us == tracks@[k].length_us
                    &&& out@[k].expected_start_us == lengths_before(tracks@, k)
                },
            forall|k: int| 0 <= k <= i ==> lengths_before(out@, k) == lengths_before(tracks@, k),
        decreases tracks.len() - i,
    {
        proof {
            lemma_lengths_grow(tracks@, i + 1, tracks@.len() as int);
        }
        let ghost before = out@;
        out.push(
            ExpectedTrack {
                position: tracks[i].position,
                title: tracks[i].title.clone(),
                length_us: tracks[i].length_us,
                expected_start_us: cumulative,
            },
        );
        proof {
            assert forall|k: int| 0 <= k <= i + 1 implies lengths_before(out@, k) == lengths_before(
                tracks@,
                k,
            ) by {
                crate::discogs::lemma_lengths_same_prefix(
                    out@,
                    before,
                    if k <= i {
                        k
                    } else {
                        i as int
                    },
                );
            }
        }
        cumulative = cumulative + tracks[i].length_us;
        i += 1;
    }
    out
}

/// The sum over more tracks is no smaller.
pub proof fn lemma_lengths_grow(tracks: Seq<ExpectedTrack>, a: int, b: int)
    requires
        0 <= a <= b <= tracks.len(),
    ensures
        lengths_before(tracks, a) <= lengths_before(tracks, b),
    decreases b - a,
{
    if a < b {
        lemma_lengths_grow(tracks, a, b - 1);
    }
}

/// How well the title with these words fits the target at `m`: the number
/// of its words that stand in the target, or 0 where they are fewer than
/// three in ten.
pub open spec fn fit(words: Seq<Seq<char>>, targets: Seq<Seq<char>>, m: int) -> int {
    let hits = hits_in(words, lowercase_of(targets[m]), words.len() as int);
    if hits >= 1 && 10 * hits >= 3 * words.len() {
        hits
    } else {
        0
    }
}

/// The free target among `targets[..upto]` that fits the title best, the
/// first among equals; nothing where no free target fits at all.
pub open spec fn best_fit(
    words: Seq<Seq<char>>,
    targets: Seq<Seq<char>>,
    used: Seq<bool>,
    upto: int,
) -> Option<usize>
    decreases upto,
{
    if upto <= 0 {
        None
    } else {
        let before = best_fit(words, targets, used, upto - 1);
        let m = upto - 1;
        let best_so_far = match before {
            Some(b) => fit(words, targets, b as int),
            None => 0,
        };
        if !used[m] && fit(words, targets, m) > best_so_far {
            Some(m as usize)
        } else {
            before
        }
    }
}

/// The targets matched to the titles `sources[..upto]`, and the targets in
/// use. Titles are matched in order, each to the free target that fits it
/// best.
pub open spec fn matches_after(sources: Seq<Seq<char>>, targets: Seq<Seq<char>>, upto: int) -> (
    Seq<Option<usize>>,
    Seq<bool>,
)
    decreases upto,
{
    if upto <= 0 {
        (Seq::empty(), Seq::new(targets.len(), |m: int| false))
    } else {
        let before = matches_after(sources, targets, upto - 1);
        let pick = best_fit(
            long_words(sources[upto - 1]),
            targets,
            before.1,
            targets.len() as int,
        );
        (
            before.0.push(pick),
            match pick {
                Some(m) => before.1.update(m as int, true),
                None => before.1,
            },
        )
    }
}

/// No target is matched to two titles.
pub open spec fn matches_differ(matched: Seq<Option<usize>>) -> bool {
    forall|i: int, j: int|
        0 <= i < matched.len() && 0 <= j < matched.len() && i != j && (#[trigger] matched[i]) is Some
            && (#[trigger] matched[j]) is Some ==> matched[i] != matched[j]
}

/// Matches titles of one listing to the titles of another, for the sake
/// of their lengths. Every title is matched, in order, to the target not
/// yet taken that holds most of its words; a target fits only where it
/// holds at least one word, and three words in ten. No target is taken
/// twice.
pub fn match_titles(sources: &Vec<String>, targets: &Vec<String>) -> (r: Vec<Option<usize>>)
    ensures
        r@ == matches_after(strings_of(sources@), strings_of(targets@), sources@.len() as int).0,
        r@.len() == sources@.len(),
        matches_differ(r@),
        forall|i: int| 0 <= i < r@.len() && (#[trigger] r@[i]) is Some ==> r@[i]->0 < targets@.len(),
{
    let ghost src = strings_of(sources@);
    let ghost tgt = strings_of(targets@);
    let mut lowered: Vec<Vec<char>> = Vec::new();
    let mut t: usize = 0;
    while t < targets.len()
        invariant
            t <= targets.len(),
            tgt == strings_of(targets@),
            lowered@.len() == t,
            forall|k: int| 0 <= k < t ==> (#[trigger] lowered@[k])@ == lowercase_of(tgt[k]),
        decreases targets.len() - t,
    {
        assert(tgt[t as int] == targets@[t as int]@);
        lowered.push(lower_chars(targets[t].as_str()));
        t += 1;
    }
    let mut used: Vec<bool> = Vec::new();
    let mut u: usize = 0;
    while u < targets.len()
        invariant
            u <= targets.len(),
            used@.len() == u,
            forall|k: int| 0 <= k < u ==> !used@[k],
        decreases targets.len() - u,
    {
        used.push(false);
        u += 1;
    }
    assert(used@ =~= Seq::new(tgt.len(), |m: int| false));
    let mut out: Vec<Option<usize>> = Vec::new();
    let mut i: usize = 0;
    while i < sources.len()
        invariant
            i <= sources.len(),
            src == strings_of(sources@),
            tgt == strings_of(targets@),
            lowered@.len() == targets@.len(),
            forall|k: int|
                0 <= k < targets@.len() ==> (#[trigger] lowered@[k])@ == lowercase_of(tgt[k]),
            used@.len() == targets@.len(),
            (out@, used@) == matches_after(src, tgt, i as int),
            out@.len() == i,
            matches_differ(out@),
            forall|k: int|
                0 <= k < out@.len() && (#[trigger] out@[k]) is Some ==> out@[k]->0
                    < targets@.len() && used@[out@[k]->0 as int],
        decreases sources.len() - i,
    {
        assert(src[i as int] == sources@[i as int]@);
        let words = title_words(sources[i].as_str());
        let mut best: Option<usize> = None;
        let mut best_hits: usize = 0;
        let mut m: usize = 0;
        while m < lowered.len()
            invariant
                m <= lowered.len(),
                lowered@.len() == targets@.len(),
                used@.len() == targets@.len(),
                tgt == strings_of(targets@),
                forall|k: int|
                    0 <= k < targets@.len() ==> (#[trigger] lowered@[k])@ == lowercase_of(tgt[k]),
                best == best_fit(texts_of(words@), tgt, used@, m as int),
                best_hits == match best {
                    Some(b) => fit(texts_of(words@), tgt, b as int),
                    None => 0,
                },
                best matches Some(b) ==> b < m && !used@[b as int],
            decreases lowered.len() - m,
        {
            if !used[m] {
                let mut hits: usize = 0;
                let mut w: usize = 0;
                while w < words.len()
                    invariant
                        w <= words.len(),
                        m < lowered.len(),
                        hits == hits_in(texts_of(words@), lowered@[m as int]@, w as int),
                        hits <= w,
                    decreases words.len() - w,
                {
                    assert(texts_of(words@)[w as int] == words@[w as int]@);
                    if contains(&lowered[m], &words[w]) {
                        hits += 1;
                    }
                    w += 1;
                }
                let fits: usize = if hits >= 1 && 10 * (hits as u128) >= 3 * (words.len() as u128) {
                    hits
                } else {
                    0
                };
                assert(fits == fit(texts_of(words@), tgt, m as int));
                if fits > best_hits {
                    best = Some(m);
                    best_hits = fits;
                }
            }
            m += 1;
        }
        let ghost before = out@;
        match best {
            Some(b) => {
                used.set(b, true);
            },
            None => {},
        }
        out.push(best);
        proof {
            assert forall|a: int, c: int|
                0 <= a < out@.len() && 0 <= c < out@.len() && a != c && (#[trigger] out@[a]) is Some
                    && (#[trigger] out@[c]) is Some implies out@[a] != out@[c] by {
                if a < before.len() && c < before.len() {
                    assert(before[a] is Some && before[c] is Some);
                } else if a < before.len() {
                    assert(before[a] is Some);
                } else if c < before.len() {
                    assert(before[c] is Some);
                }
            }
            assert forall|k: int| 0 <= k < out@.len() && (#[trigger] out@[k]) is Some implies out@[k]->0
                < targets@.len() && used@[out@[k]->0 as int] by {
                if k < before.len() {
                    assert(before[k] is Some);
                }
            }
        }
        i += 1;
    }
    out
}

/// Number of the titles among `matched[..upto]` that found a target.
pub open spec fn matched_count(matched: Seq<Option<usize>>, upto: int) -> int
    decreases upto,
{
    if upto <= 0 {
        0
    } else {
        matched_count(matched, upto - 1) + if matched[upto - 1] is Some {
            1int
        } else {
            0int
        }
    }
}

/// Whether lengths taken from another listing are taken over: at least
/// one title found its target, and at least half of them did.
pub fn enrichment_accepted(matched: &Vec<Option<usize>>) -> (r: bool)
    ensures
        r == (matched_count(matched@, matched@.len() as int) > 0 && 2 * matched_count(
            matched@,
            matched@.len() as int,
        ) >= matched@.len()),
{
    let mut count: usize = 0;
    let mut i: usize = 0;
    while i < matched.len()
        invariant
            i <= matched.len(),
            count == matched_count(matched@, i as int),
            count <= i,
        decreases matched.len() - i,
    {
        if matched[i].is_some() {
            count += 1;
        }
        i += 1;
    }
    count > 0 && 2 * (count as u128) >= matched.len() as u128
}

/// The length taken for the track at `i` of a matching: that of its
/// target, 0 where it found none.
pub open spec fn taken_length(targets: Seq<ExpectedTrack>, matched: Seq<Option<usize>>, i: int) -> u64 {
    match matched[i] {
        Some(m) => targets[m as int].length_us,
        None => 0,
    }
}

/// Sum of the lengths taken for the tracks `from..to` of a matching.
pub open spec fn taken_total(
    targets: Seq<ExpectedTrack>,
    matched: Seq<Option<usize>>,
    from: int,
    to: int,
) -> int
    decreases to - from,
{
    if to <= from {
        0
    } else {
        taken_total(targets, matched, from, to - 1) + taken_length(targets, matched, to - 1)
    }
}

/// `tracks` are the tracks of `side` with the lengths of the targets that
/// the matching gave them, the tracks of the side starting at `offset` of
/// the matching.
pub open spec fn enriches(
    tracks: Seq<ExpectedTrack>,
    side: DiscogsSide,
    targets: Seq<ExpectedTrack>,
    matched: Seq<Option<usize>>,
    offset: int,
) -> bool {
    &&& tracks.len() == side.tracks@.len()
    &&& forall|i: int|
        0 <= i < tracks.len() ==> {
            &&& (#[trigger] tracks[i]).title == side.tracks@[i].title
            &&& tracks[i].position == track_number(side.tracks@[i].position@)
            &&& tracks[i].length_us == taken_length(targets, matched, offset + i)
            &&& tracks[i].expected_start_us == taken_total(targets, matched, offset, offset + i)
        }
}

/// Lists the tracks of a side with the lengths of the targets that their
/// titles were matched to. The matching covers the tracks of all sides in
/// order; those of this side start at `offset`. A track keeps its title and
/// takes the length of its target, 0 without one; its start is the sum of
/// the lengths before it on the side. Nothing where the matching does not
/// cover the side, or the lengths exceed the range of a duration.
pub fn enrich_side(
    side: &DiscogsSide,
    targets: &Vec<ExpectedTrack>,
    matched: &Vec<Option<usize>>,
    offset: usize,
) -> (r: Option<Vec<ExpectedTrack>>)
    requires
        forall|i: int|
            0 <= i < matched@.len() && (#[trigger] matched@[i]) is Some ==> matched@[i]->0
                < targets@.len(),
    ensures
        r is Some <==> offset + side.tracks@.len() <= matched@.len() && taken_total(
            targets@,
            matched@,
            offset as int,
            offset + side.tracks@.len(),
        ) <= u64::MAX,
        r matches Some(tracks) ==> enriches(tracks@, *side, targets@, matched@, offset as int),
{
    if offset > matched.len() || side.tracks.len() > matched.len() - offset {
        return None;
    }
    let mut out: Vec<ExpectedTrack> = Vec::new();
    let mut cumulative: u64 = 0;
    let mut i: usize = 0;
    while i < side.tracks.len()
        invariant
            i <= side.tracks.len(),
            offset + side.tracks@.len() <= matched@.len(),
            forall|k: int|
                0 <= k < matched@.len() && (#[trigger] matched@[k]) is Some ==> matched@[k]->0
                    < targets@.len(),
            cumulative == taken_total(targets@, matched@, offset as int, offset + i),
            out@.len() == i,
            forall|k: int|
                0 <= k < i ==> {
                    &&& (#[trigger] out@[k]).title == side.tracks@[k].title
                    &&& out@[k].position == track_number(side.tracks@[k].position@)
                    &&& out@[k].length_us == taken_length(targets@, matched@, offset + k)
                    &&& out@[k].expected_start_us == taken_total(
                        targets@,
                        matched@,
                        offset as int,
                        offset + k,
                    )
                },
        decreases side.tracks.len() - i,
    {
        assert(offset + i < matched.len());
        let length: u64 = match matched[offset + i] {
            Some(m) => targets[m].length_us,
            None => 0,
        };
        if length > u64::MAX - cumulative {
            proof {
                lemma_taken_total_grows(
                    targets@,
                    matched@,
                    offset as int,
                    offset + i + 1,
                    offset + side.tracks@.len(),
                );
            }
            return None;
        }
        let numbers = crate::discogs::number_of_track(side.tracks[i].position.as_str());
        out.push(
            ExpectedTrack {
                position: numbers,
                title: side.tracks[i].title.clone(),
                length_us: length,
                expected_start_us: cumulative,
            },
        );
        cumulative = cumulative + length;
        i += 1;
    }
    Some(out)
}

/// The sum over more tracks is no smaller.
pub proof fn lemma_taken_total_grows(
    targets: Seq<ExpectedTrack>,
    matched: Seq<Option<usize>>,
    from: int,
    a: int,
    b: int,
)
    requires
        from <= a <= b,
    ensures
        taken_total(targets, matched, from, a) <= taken_total(targets, matched, from, b),
    decreases b - a,
{
    if a < b {
        lemma_taken_total_grows(targets, matched, from, a, b - 1);
    }
}

/// The titles of the first `upto` tracks of a side.
pub open spec fn side_titles(side: DiscogsSide, upto: int) -> Seq<Seq<char>>
    decreases upto,
{
    if upto <= 0 {
        Seq::empty()
    } else {
        side_titles(side, upto - 1).push(side.tracks@[upto - 1].title@)
    }
}

/// The titles of the tracks of the sides `sides[..upto]`, side by side.
pub open spec fn release_titles(sides: Seq<DiscogsSide>, upto: int) -> Seq<Seq<char>>
    decreases upto,
{
    if upto <= 0 {
        Seq::empty()
    } else {
        release_titles(sides, upto - 1) + side_titles(
            sides[upto - 1],
            sides[upto - 1].tracks@.len() as int,
        )
    }
}

/// The titles of the tracks of a listing.
pub open spec fn target_titles(targets: Seq<ExpectedTrack>) -> Seq<Seq<char>> {
    Seq::new(targets.len(), |i: int| targets[i].title@)
}

/// The matching of the tracks of a release to the tracks of a listing.
pub open spec fn release_matching(sides: Seq<DiscogsSide>, targets: Seq<ExpectedTrack>) -> Seq<
    Option<usize>,
> {
    let titles = release_titles(sides, sides.len() as int);
    matches_after(titles, target_titles(targets), titles.len() as int).0
}

/// Whether a matching is taken over: at least one title found its target,
/// and at least half of them did.
pub open spec fn is_accepted(matched: Seq<Option<usize>>) -> bool {
    matched_count(matched, matched.len() as int) > 0 && 2 * matched_count(
        matched,
        matched.len() as int,
    ) >= matched.len()
}

/// The lengths taken for the side at `s` fit the range of a duration.
pub open spec fn side_fits(
    sides: Seq<DiscogsSide>,
    targets: Seq<ExpectedTrack>,
    matched: Seq<Option<usize>>,
    s: int,
) -> bool {
    taken_total(
        targets,
        matched,
        release_titles(sides, s).len() as int,
        release_titles(sides, s).len() + sides[s].tracks@.len() as int,
    ) <= u64::MAX
}

/// `list` holds, for each side among `sides[..upto]` that has tracks, its
/// letter and its tracks with the lengths that the matching gave them.
pub open spec fn lists_enriched(
    list: Seq<(char, Vec<ExpectedTrack>)>,
    sides: Seq<DiscogsSide>,
    upto: int,
    targets: Seq<ExpectedTrack>,
    matched: Seq<Option<usize>>,
) -> bool
    decreases upto,
{
    if upto <= 0 {
        list.len() == 0
    } else if sides[upto - 1].tracks@.len() > 0 {
        &&& list.len() >= 1
        &&& list[list.len() - 1].0 == sides[upto - 1].label
        &&& enriches(
            list[list.len() - 1].1@,
            sides[upto - 1],
            targets,
            matched,
            release_titles(sides, upto - 1).len() as int,
        )
        &&& lists_enriched(list.drop_last(), sides, upto - 1, targets, matched)
    } else {
        lists_enriched(list, sides, upto - 1, targets, matched)
    }
}

proof fn lemma_side_titles_len(side: DiscogsSide, upto: int)
    requires
        0 <= upto,
    ensures
        side_titles(side, upto).len() == upto,
    decreases upto,
{
    if upto > 0 {
        lemma_side_titles_len(side, upto - 1);
    }
}

proof fn lemma_release_titles_grow(sides: Seq<DiscogsSide>, a: int, b: int)
    requires
        0 <= a <= b,
    ensures
        release_titles(sides, a).len() <= release_titles(sides, b).len(),
        a < b ==> release_titles(sides, a).len() + sides[a].tracks@.len() <= release_titles(
            sides,
            b,
        ).len(),
    decreases b - a,
{
    if a < b {
        lemma_release_titles_grow(sides, a, b - 1);
        lemma_side_titles_len(sides[b - 1], sides[b - 1].tracks@.len() as int);
    }
}

fn titles_of_release(sides: &Vec<DiscogsSide>) -> (r: Vec<String>)
    ensures
        strings_of(r@) == release_titles(sides@, sides@.len() as int),
{
    let mut titles: Vec<String> = Vec::new();
    let mut s: usize = 0;
    assert(strings_of(titles@) =~= release_titles(sides@, 0));
    while s < sides.len()
        invariant
            s <= sides.len(),
            strings_of(titles@) == release_titles(sides@, s as int),
        decreases sides.len() - s,
    {
        let ghost before = strings_of(titles@);
        let mut t: usize = 0;
        assert(strings_of(titles@) =~= before + side_titles(sides@[s as int], 0));
        while t < sides[s].tracks.len()
            invariant
                s < sides.len(),
                t <= sides@[s as int].tracks@.len(),
                strings_of(titles@) == before + side_titles(sides@[s as int], t as int),
            decreases sides@[s as int].tracks@.len() - t,
        {
            let ghost had = strings_of(titles@);
            titles.push(sides[s].tracks[t].title.clone());
            assert(strings_of(titles@) =~= had.push(sides@[s as int].tracks@[t as int].title@));
            assert(before + side_titles(sides@[s as int], t + 1) =~= (before + side_titles(
                sides@[s as int],
                t as int,
            )).push(sides@[s as int].tracks@[t as int].title@));
            t += 1;
        }
        s += 1;
    }
    titles
}

fn titles_of_targets(targets: &Vec<ExpectedTrack>) -> (r: Vec<String>)
    ensures
        strings_of(r@) == target_titles(targets@),
{
    let mut titles: Vec<String> = Vec::new();
    let mut i: usize = 0;
    while i < targets.len()
        invariant
            i <= targets.len(),
            titles@.len() == i,
            forall|k: int| 0 <= k < i ==> (#[trigger] titles@[k])@ == targets@[k].title@,
        decreases targets.len() - i,
    {
        titles.push(targets[i].title.clone());
        i += 1;
    }
    assert(strings_of(titles@) =~= target_titles(targets@));
    titles
}

/// Takes the lengths of the tracks of a release from another listing of
/// the same album. Every title of the release looks for its track in the
/// listing, side by side and in the order of the tracks. Returns, for each
/// side that has tracks, its letter and its tracks with the lengths found.
/// Nothing where the listing knows no length, where fewer than half of the
/// titles, or none, found their track, or where the lengths of a side
/// exceed the range of a duration.
pub fn enrich_release(sides: &Vec<DiscogsSide>, targets: &Vec<ExpectedTrack>) -> (r: Option<
    Vec<(char, Vec<ExpectedTrack>)>,
>)
    ensures
        r is Some <==> {
            &&& some_length_known(targets@, targets@.len() as int)
            &&& is_accepted(release_matching(sides@, targets@))
            &&& forall|s: int|
                0 <= s < sides@.len() ==> #[trigger] side_fits(
                    sides@,
                    targets@,
                    release_matching(sides@, targets@),
                    s,
                )
        },
        r matches Some(list) ==> lists_enriched(
            list@,
            sides@,
            sides@.len() as int,
            targets@,
            release_matching(sides@, targets@),
        ),
{
    if !tracks_have_durations(targets) {
        return None;
    }
    let titles = titles_of_release(sides);
    let wanted = titles_of_targets(targets);
    let matched = match_titles(&titles, &wanted);
    assert(matched@ == release_matching(sides@, targets@));
    if !enrichment_accepted(&matched) {
        return None;
    }
    let mut out: Vec<(char, Vec<ExpectedTrack>)> = Vec::new();
    let mut offset: usize = 0;
    let mut s: usize = 0;
    while s < sides.len()
        invariant
            s <= sides.len(),
            matched@ == release_matching(sides@, targets@),
            matched@.len() == release_titles(sides@, sides@.len() as int).len(),
            forall|i: int|
                0 <= i < matched@.len() && (#[trigger] matched@[i]) is Some ==> matched@[i]->0
                    < targets@.len(),
            offset == release_titles(sides@, s as int).len(),
            forall|k: int| 0 <= k < s ==> #[trigger] side_fits(sides@, targets@, matched@, k),
            lists_enriched(out@, sides@, s as int, targets@, matched@),
        decreases sides.len() - s,
    {
        proof {
            lemma_release_titles_grow(sides@, s as int, sides@.len() as int);
            lemma_side_titles_len(sides@[s as int], sides@[s as int].tracks@.len() as int);
        }
        match enrich_side(&sides[s], targets, &matched, offset) {
            Some(tracks) => {
                let ghost before = out@;
                if tracks.len() > 0 {
                    out.push((sides[s].label, tracks));
                    assert(out@.drop_last() =~= before);
                }
            },
            None => {
                assert(!side_fits(sides@, targets@, matched@, s as int));
                return None;
            },
        }
        assert(offset + sides@[s as int].tracks@.len() <= matched@.len() == matched.len());
        offset = offset + sides[s].tracks.len();
        s += 1;
    }
    Some(out)
}

/// Takes the result of an assignment over as the result for a file of the
/// group.
pub fn file_result(assigned: crate::lookup::FileSideResult) -> (r: FileSideResult)
    ensures
        r.path == assigned.path,
        r.artist == assigned.artist,
        r.album_title == assigned.album_title,
        r.release_info == assigned.release_info,
        r.side_label == assigned.side_label,
        r.tracks == assigned.tracks,
        r.backend == assigned.backend,
{
    FileSideResult {
        path: assigned.path,
        artist: assigned.artist,
        album_title: assigned.album_title,
        release_info: assigned.release_info,
        side_label: assigned.side_label,
        tracks: assigned.tracks,
        backend: assigned.backend,
    }
}

/// Some file was given a side none of whose tracks has a known length.
pub open spec fn lacks_lengths(results: Seq<FileSideResult>, upto: int) -> bool {
    exists|i: int|
        0 <= i < upto && (#[trigger] results[i]).tracks@.len() > 0 && !some_length_known(
            results[i].tracks@,
            results[i].tracks@.len() as int,
        )
}

/// Tells whether lengths have to be taken from another listing: whether
/// some file was given a side none of whose tracks has a known length.
pub fn needs_enrichment(results: &Vec<FileSideResult>) -> (r: bool)
    ensures
        r == lacks_lengths(results@, results@.len() as int),
{
    let mut i: usize = 0;
    while i < results.len()
        invariant
            i <= results.len(),
            !lacks_lengths(results@, i as int),
        decreases results.len() - i,
    {
        if results[i].tracks.len() > 0 && !tracks_have_durations(&results[i].tracks) {
            return true;
        }
        i += 1;
    }
    false
}

/// Index of the first entry of `list[..upto]` for the side `label`, -1
/// where there is none.
pub open spec fn entry_for(list: Seq<(char, Vec<ExpectedTrack>)>, label: char, upto: int) -> int
    decreases upto,
{
    if upto <= 0 {
        -1
    } else if entry_for(list, label, upto - 1) >= 0 {
        entry_for(list, label, upto - 1)
    } else if list[upto - 1].0 == label {
        upto - 1
    } else {
        -1
    }
}

/// Name of the service of a result whose lengths come from another
/// listing.
pub open spec fn enriched_name() -> Seq<char> {
    "Discogs + MusicBrainz (durations)"@
}

/// The entry of `list` that a result takes its tracks from: the first for
/// its side, where the result has a side; -1 where it takes none.
pub open spec fn source_entry(result: FileSideResult, list: Seq<(char, Vec<ExpectedTrack>)>) -> int {
    if result.tracks@.len() == 0 {
        -1
    } else {
        entry_for(list, result.side_label, list.len() as int)
    }
}

/// Gives a result the tracks found for its side in another listing, and
/// names both services. A result without a side, or for whose side nothing
/// was found, stays as it is.
pub fn with_enriched(result: FileSideResult, enriched: &Vec<(char, Vec<ExpectedTrack>)>) -> (r:
    FileSideResult)
    ensures
        r.path == result.path,
        r.artist == result.artist,
        r.album_title == result.album_title,
        r.release_info == result.release_info,
        r.side_label == result.side_label,
        source_entry(result, enriched@) < 0 ==> r.tracks == result.tracks && r.backend
            == result.backend,
        source_entry(result, enriched@) >= 0 ==> r.tracks@ == enriched@[source_entry(
            result,
            enriched@,
        )].1@ && r.backend@ == enriched_name(),
{
    if result.tracks.len() == 0 {
        return result;
    }
    let mut i: usize = 0;
    while i < enriched.len()
        invariant
            i <= enriched.len(),
            result.tracks@.len() > 0,
            entry_for(enriched@, result.side_label, i as int) < 0,
        decreases enriched.len() - i,
    {
        if enriched[i].0 == result.side_label {
            proof {
                lemma_entry_stays(enriched@, result.side_label, i + 1, enriched@.len() as int);
            }
            return FileSideResult {
                path: result.path,
                artist: result.artist,
                album_title: result.album_title,
                release_info: result.release_info,
                side_label: result.side_label,
                tracks: copy_tracks(&enriched[i].1),
                backend: String::from_str("Discogs + MusicBrainz (durations)"),
            };
        }
        i += 1;
    }
    result
}

/// Some file of `results[..upto]` was given a side.
pub open spec fn some_assigned(results: Seq<FileSideResult>, upto: int) -> bool {
    exists|i: int| 0 <= i < upto && (#[trigger] results[i]).tracks@.len() > 0
}

/// Tells whether some file was given a side.
pub fn any_assigned(results: &Vec<FileSideResult>) -> (r: bool)
    ensures
        r == some_assigned(results@, results@.len() as int),
{
    let mut i: usize = 0;
    while i < results.len()
        invariant
            i <= results.len(),
            !some_assigned(results@, i as int),
        decreases results.len() - i,
    {
        if results[i].tracks.len() > 0 {
            return true;
        }
        i += 1;
    }
    false
}

/// Number of listings, at most, that lengths are looked for in.
pub const MAX_LISTINGS: usize = 5;

proof fn lemma_entry_stays(list: Seq<(char, Vec<ExpectedTrack>)>, label: char, a: int, b: int)
    requires
        0 <= a <= b,
        entry_for(list, label, a) >= 0,
    ensures
        entry_for(list, label, b) == entry_for(list, label, a),
    decreases b - a,
{
    if a < b {
        lemma_entry_stays(list, label, a, b - 1);
    }
}

} // verus!
