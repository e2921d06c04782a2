//! MusicBrainz as a service for release lookups.

use crate::album_finder::same_song;
use crate::album_identifier::IdentifiedSong;
use crate::lookup::AlbumSideResult;
use crate::musicbrainz::{ExpectedTrack, SearchResult};
use crate::text::{lowercase_of, same_text, to_lowercase};
use vstd::prelude::*;
use vstd::string::StringExecFns;

verus! {

/// The MusicBrainz service, for vinyl releases only or for all.
#[derive(Clone, Copy, Debug)]
pub struct MusicBrainzBackend {
    /// Whether only vinyl releases count.
    pub vinyl_only: bool,
}

impl MusicBrainzBackend {
    /// Returns the name of the service.
    pub fn name(&self) -> (r: &'static str)
        ensures
            r@ == if self.vinyl_only {
                "MusicBrainz (vinyl)"@
            } else {
                "MusicBrainz (all)"@
            },
    {
        if self.vinyl_only {
            "MusicBrainz (vinyl)"
        } else {
            "MusicBrainz (all)"
        }
    }

    /// Makes the result for the tracks picked from a release; nothing
    /// where no track was picked.
    pub fn side_result(&self, best: &SearchResult, tracks: Vec<ExpectedTrack>) -> (r: Option<
        AlbumSideResult,
    >)
        ensures
            r is None <==> tracks@.len() == 0,
            r matches Some(result) ==> {
                &&& result.artist == best.artist
                &&& result.album_title == best.title
                &&& result.release_info@ == "https://musicbrainz.org/release/"@ + best.release_id@
                &&& result.tracks == tracks
                &&& result.backend@ == if self.vinyl_only {
                    "MusicBrainz (vinyl)"@
                } else {
                    "MusicBrainz (all)"@
                }
            },
    {
        if tracks.len() == 0 {
            return None;
        }
        let mut url = String::from_str("https://musicbrainz.org/release/");
        url.append(best.release_id.as_str());
        Some(
            AlbumSideResult {
                artist: best.artist.clone(),
                album_title: best.title.clone(),
                release_info: url,
                tracks,
                backend: String::from_str(self.name()),
            },
        )
    }
}

/// Number of releases, at most, whose durations are held against the
/// music.
pub const MAX_TOP_CANDIDATES: usize = 15;

/// Some release among `results[..upto]` is on vinyl.
pub open spec fn any_on_vinyl(results: Seq<SearchResult>, upto: int) -> bool {
    exists|i: int| 0 <= i < upto && (#[trigger] results[i]).is_vinyl
}

/// Whether the release at `i` is looked at: with a wish for vinyl and
/// vinyl among the releases, only the vinyl ones are.
pub open spec fn is_candidate(results: Seq<SearchResult>, vinyl_only: bool, i: int) -> bool {
    !(vinyl_only && any_on_vinyl(results, results.len() as int)) || results[i].is_vinyl
}

/// Picks the releases to look at: with a wish for vinyl, the vinyl ones
/// where there are any; else all. Returns their indices, in order.
pub fn candidate_indices(results: &Vec<SearchResult>, vinyl_only: bool) -> (r: Vec<usize>)
    ensures
        forall|k: int| 0 <= k < r@.len() ==> r@[k] < results@.len() && is_candidate(
            results@,
            vinyl_only,
            #[trigger] r@[k] as int,
        ),
        forall|a: int, b: int| 0 <= a < b < r@.len() ==> r@[a] < r@[b],
        forall|i: int|
            0 <= i < results@.len() && is_candidate(results@, vinyl_only, i) ==> r@.contains(
                i as usize,
            ),
{
    let mut vinyl: bool = false;
    let mut j: usize = 0;
    while j < results.len()
        invariant
            j <= results.len(),
            vinyl == any_on_vinyl(results@, j as int),
        decreases results.len() - j,
    {
        if results[j].is_vinyl {
            vinyl = true;
        }
        j += 1;
    }
    let only: bool = vinyl_only && vinyl;
    let mut out: Vec<usize> = Vec::new();
    let mut i: usize = 0;
    while i < results.len()
        invariant
            i <= results.len(),
            only == (vinyl_only && any_on_vinyl(results@, results@.len() as int)),
            forall|k: int| 0 <= k < out@.len() ==> out@[k] < i && is_candidate(
                results@,
                vinyl_only,
                #[trigger] out@[k] as int,
            ),
            forall|a: int, b: int| 0 <= a < b < out@.len() ==> out@[a] < out@[b],
            forall|m: int|
                0 <= m < i && is_candidate(results@, vinyl_only, m) ==> out@.contains(m as usize),
        decreases results.len() - i,
    {
        let ghost before = out@;
        if !only || results[i].is_vinyl {
            out.push(i);
            assert(out@[out@.len() - 1] == i);
            assert forall|m: int| 0 <= m < i + 1 && is_candidate(
                results@,
                vinyl_only,
                m,
            ) implies out@.contains(m as usize) by {
                if m < i {
                    let w = choose|w: int| 0 <= w < before.len() && before[w] == m as usize;
                    assert(out@[w] == m as usize);
                }
            }
        }
        i += 1;
    }
    out
}

/// The song at `i` was not named before.
pub open spec fn is_new_song(songs: Seq<IdentifiedSong>, i: int) -> bool {
    forall|j: int| 0 <= j < i ==> !same_song(#[trigger] songs[j], songs[i])
}

/// Picks the songs to search for: each song once, at the place where it
/// was first named. Returns their indices, in order.
pub fn unique_songs(songs: &Vec<IdentifiedSong>) -> (r: Vec<usize>)
    ensures
        forall|k: int| 0 <= k < r@.len() ==> (#[trigger] r@[k]) < songs@.len() && is_new_song(
            songs@,
            r@[k] as int,
        ),
        forall|a: int, b: int| 0 <= a < b < r@.len() ==> #[trigger] r@[a] < #[trigger] r@[b],
        forall|i: int| 0 <= i < songs@.len() && is_new_song(songs@, i) ==> r@.contains(i as usize),
{
    let mut artists: Vec<String> = Vec::new();
    let mut titles: Vec<String> = Vec::new();
    let mut n: usize = 0;
    while n < songs.len()
        invariant
            n <= songs.len(),
            artists@.len() == n,
            titles@.len() == n,
            forall|k: int|
                0 <= k < n ==> (#[trigger] artists@[k])@ == lowercase_of(songs@[k].artist@)
                    && titles@[k]@ == lowercase_of(songs@[k].title@),
        decreases songs.len() - n,
    {
        artists.push(to_lowercase(songs[n].artist.as_str()));
        titles.push(to_lowercase(songs[n].title.as_str()));
        n += 1;
    }
    let mut out: Vec<usize> = Vec::new();
    let mut i: usize = 0;
    while i < songs.len()
        invariant
            i <= songs.len(),
            artists@.len() == songs@.len(),
            titles@.len() == songs@.len(),
            forall|k: int|
                0 <= k < songs@.len() ==> (#[trigger] artists@[k])@ == lowercase_of(
                    songs@[k].artist@,
                ) && titles@[k]@ == lowercase_of(songs@[k].title@),
            forall|k: int| 0 <= k < out@.len() ==> (#[trigger] out@[k]) < i && is_new_song(
                songs@,
                out@[k] as int,
            ),
            forall|a: int, b: int| 0 <= a < b < out@.len() ==> #[trigger] out@[a] < #[trigger] out@[b],
            forall|m: int| 0 <= m < i && is_new_song(songs@, m) ==> out@.contains(m as usize),
        decreases songs.len() - i,
    {
        let mut j: usize = 0;
        let mut seen: bool = false;
        while j < i && !seen
            invariant
                j <= i < songs.len(),
                artists@.len() == songs@.len(),
                titles@.len() == songs@.len(),
                forall|k: int|
                    0 <= k < songs@.len() ==> (#[trigger] artists@[k])@ == lowercase_of(
                        songs@[k].artist@,
                    ) && titles@[k]@ == lowercase_of(songs@[k].title@),
                !seen ==> forall|k: int| 0 <= k < j ==> !same_song(#[trigger] songs@[k], songs@[i as int]),
                seen ==> j >= 1 && same_song(songs@[j - 1], songs@[i as int]),
            decreases i - j + if seen { 0int } else { 1int },
        {
            assert(artists@[j as int]@ == lowercase_of(songs@[j as int].artist@));
            assert(artists@[i as int]@ == lowercase_of(songs@[i as int].artist@));
            if same_text(artists[j].as_str(), artists[i].as_str()) && same_text(
                titles[j].as_str(),
                titles[i].as_str(),
            ) {
                seen = true;
            }
            j += 1;
        }
        let ghost before = out@;
        if !seen {
            out.push(i);
            assert(out@[out@.len() - 1] == i);
        }
        proof {
            assert forall|m: int| 0 <= m < i + 1 && is_new_song(songs@, m) implies out@.contains(
                m as usize,
            ) by {
                if m < i {
                    assert(before.contains(m as usize));
                    let k = choose|k: int| 0 <= k < before.len() && before[k] == m as usize;
                    assert(out@[k] == m as usize);
                }
            }
        }
        i += 1;
    }
    out
}

} // verus!
