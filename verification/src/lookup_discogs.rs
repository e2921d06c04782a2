//! Discogs as a service for release lookups: how its releases become the
//! results that all services share.

use crate::discogs::{
    find_best_side, side_to_expected_tracks, total_of, DiscogsRelease, DiscogsSide,
};
use crate::lookup::{AlbumResult, AlbumSideResult, SideInfo};
use crate::text::{append, chars_of, decimal, digits_of, string_of};
use vstd::prelude::*;
use vstd::string::StringExecFns;

verus! {

/// The Discogs service.
#[derive(Clone, Copy, Debug)]
pub struct DiscogsBackend;

impl DiscogsBackend {
    /// Returns the name of the service.
    pub fn name(&self) -> (r: &'static str)
        ensures
            r@ == "Discogs"@,
    {
        "Discogs"
    }
}

/// The address of a release.
pub open spec fn release_address(release_id: nat) -> Seq<char> {
    "https://www.discogs.com/release/"@ + digits_of(release_id)
}

/// Returns the address of a release.
pub fn release_url(release_id: u64) -> (r: String)
    ensures
        r@ == release_address(release_id as nat),
{
    let mut out = chars_of("https://www.discogs.com/release/");
    let digits = decimal(release_id);
    append(&mut out, &digits);
    string_of(&out)
}

/// The durations of every side add up within the range of a duration.
pub open spec fn sides_add_up(release: DiscogsRelease) -> bool {
    forall|i: int|
        0 <= i < release.sides@.len() ==> total_of(
            (#[trigger] release.sides@[i]).tracks@,
            release.sides@[i].tracks@.len() as int,
        ) <= u64::MAX
}

/// `tracks` list the tracks of `side`: each with the number that its
/// position writes, its title and its duration, and the start expected
/// from the durations before it.
pub open spec fn lists_side(tracks: Seq<crate::musicbrainz::ExpectedTrack>, side: DiscogsSide) -> bool {
    &&& tracks.len() == side.tracks@.len()
    &&& forall|i: int|
        0 <= i < tracks.len() ==> {
            &&& (#[trigger] tracks[i]).position == crate::discogs::track_number(
                side.tracks@[i].position@,
            )
            &&& tracks[i].title == side.tracks@[i].title
            &&& tracks[i].length_us == side.tracks@[i].duration_us
            &&& tracks[i].expected_start_us == total_of(side.tracks@, i)
        }
}

/// Makes the result for the side of a release that matches a file best;
/// nothing where no side has tracks.
pub fn side_result(release: &DiscogsRelease, file_duration_us: u64, song_titles: &Vec<String>) -> (r:
    Option<AlbumSideResult>)
    requires
        sides_add_up(*release),
    ensures
        match r {
            Some(result) => {
                &&& result.artist == release.artist
                &&& result.album_title == release.title
                &&& result.release_info@ == release_address(release.release_id as nat)
                &&& result.backend@ == "Discogs"@
                &&& result.tracks@.len() > 0
                &&& crate::discogs::starts_are_cumulative(result.tracks@)
                &&& lists_side(
                    result.tracks@,
                    release.sides@[crate::discogs::best_side_index(
                        release.sides@,
                        crate::text::strings_of(song_titles@),
                        file_duration_us as int,
                        release.sides@.len() as int,
                    )],
                )
            },
            None => crate::discogs::best_side_index(
                release.sides@,
                crate::text::strings_of(song_titles@),
                file_duration_us as int,
                release.sides@.len() as int,
            ) == -1,
        },
{
    match find_best_side(release, file_duration_us, song_titles) {
        Some(side) => {
            proof {
                crate::discogs::lemma_best_side_has_tracks(
                    release.sides@,
                    crate::text::strings_of(song_titles@),
                    file_duration_us as int,
                    release.sides@.len() as int,
                );
            }
            let tracks = side_to_expected_tracks(side);
            if tracks.len() == 0 {
                None
            } else {
                Some(
                    AlbumSideResult {
                        artist: release.artist.clone(),
                        album_title: release.title.clone(),
                        release_info: release_url(release.release_id),
                        tracks,
                        backend: String::from_str("Discogs"),
                    },
                )
            }
        },
        None => None,
    }
}

/// Makes the result for a release with all its sides.
pub fn album_result(release: &DiscogsRelease) -> (r: AlbumResult)
    requires
        sides_add_up(*release),
    ensures
        r.artist == release.artist,
        r.album_title == release.title,
        r.release_info@ == release_address(release.release_id as nat),
        r.backend@ == "Discogs"@,
        r.sides@.len() == release.sides@.len(),
        forall|i: int|
            0 <= i < r.sides@.len() ==> {
                &&& (#[trigger] r.sides@[i]).label == release.sides@[i].label
                &&& r.sides@[i].total_duration_us == release.sides@[i].total_duration_us
                &&& lists_side(r.sides@[i].tracks@, release.sides@[i])
                &&& crate::discogs::starts_are_cumulative(r.sides@[i].tracks@)
            },
{
    let mut sides: Vec<SideInfo> = Vec::new();
    let mut i: usize = 0;
    while i < release.sides.len()
        invariant
            i <= release.sides.len(),
            sides_add_up(*release),
            sides@.len() == i,
            forall|k: int|
                0 <= k < i ==> {
                    &&& (#[trigger] sides@[k]).label == release.sides@[k].label
                    &&& sides@[k].total_duration_us == release.sides@[k].total_duration_us
                    &&& lists_side(sides@[k].tracks@, release.sides@[k])
                    &&& crate::discogs::starts_are_cumulative(sides@[k].tracks@)
                },
        decreases release.sides.len() - i,
    {
        let side = &release.sides[i];
        assert(total_of(release.sides@[i as int].tracks@, release.sides@[i as int].tracks@.len() as int) <= u64::MAX);
        sides.push(
            SideInfo {
                label: side.label,
                tracks: side_to_expected_tracks(side),
                total_duration_us: side.total_duration_us,
            },
        );
        i += 1;
    }
    AlbumResult {
        artist: release.artist.clone(),
        album_title: release.title.clone(),
        release_info: release_url(release.release_id),
        sides,
        backend: String::from_str("Discogs"),
    }
}

} // verus!
