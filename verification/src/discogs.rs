//! Releases as Discogs lists them: tracks with positions such as `A1` and
//! `B2`, grouped into the sides of a record.
//!
//! Durations are in microseconds, scores in thousandths.

use crate::album_identifier::{by_frequency, first_or, rank_by_frequency, IdentifiedSong};
use crate::lookup::{
    count_matching_songs, duration_points, duration_score, lower_chars, lowered, matched_songs,
    song_points, FULL_DURATION_SCORE, FULL_SONG_SCORE,
};
use crate::musicbrainz::ExpectedTrack;
use crate::rate_limiter::{RateLimiter, DEFAULT_MAX_FACTOR, DEFAULT_SUCCESSES_TO_REDUCE};
use crate::selection::{largest_first, order_descending, precedes, rounds_for};
use crate::text::{
    append, append_str, ascii_upper, chars_of, contains, contains_text, find_text, is_ascii_letter,
    is_digit, occurs_at, parse_digits, parse_number, parsed_digits, parsed_number, pieces_of, slice_of, split_on, string_of,
    strings_of, texts_of, to_ascii_upper, trim, trimmed,
};
use crate::toml_tree::{entry_text, get_text, parse_toml, toml_document, TomlValue};
use vstd::prelude::*;
use vstd::string::StringExecFns;

verus! {

/// Interval between requests of a client with credentials, in
/// milliseconds.
pub const AUTHENTICATED_INTERVAL_MS: u64 = 1000;

/// Interval between requests of a client without credentials, in
/// milliseconds.
pub const ANONYMOUS_INTERVAL_MS: u64 = 2500;

/// How every request introduces the application.
pub const USER_AGENT: &'static str = "HifiBerryAutorec/0.2 +https://github.com/hifiberry/autorec";

/// Creates the limiter for the requests to Discogs.
pub fn create_rate_limiter(authenticated: bool) -> (r: RateLimiter)
    ensures
        r.name@ == "Discogs"@,
        r.last_request is None,
        r.base_interval == if authenticated {
            AUTHENTICATED_INTERVAL_MS
        } else {
            ANONYMOUS_INTERVAL_MS
        },
        r.current_interval == r.base_interval,
        r.max_interval == r.base_interval * DEFAULT_MAX_FACTOR,
        r.success_count == 0,
        r.successes_to_reduce == DEFAULT_SUCCESSES_TO_REDUCE,
{
    if authenticated {
        RateLimiter::from_millis("Discogs", AUTHENTICATED_INTERVAL_MS)
    } else {
        RateLimiter::from_millis("Discogs", ANONYMOUS_INTERVAL_MS)
    }
}

/// Key and secret of the application.
#[derive(Clone, Debug)]
pub struct Credentials {
    /// The consumer key.
    pub key: String,
    /// The consumer secret.
    pub secret: String,
}

/// The credentials that a file holds: the strings under `consumer_key`
/// and `consumer_secret`.
pub open spec fn credentials_in(entries: Seq<(String, TomlValue)>) -> Option<(Seq<char>, Seq<char>)> {
    match (entry_text(entries, "consumer_key"@), entry_text(entries, "consumer_secret"@)) {
        (Some(key), Some(secret)) => Some((key, secret)),
        _ => None,
    }
}

/// The credentials among the candidate files `files[from..]`: those of the
/// first file that is there and is a TOML document; none where that file
/// lacks them.
pub open spec fn credentials_of(files: Seq<Option<String>>, from: int) -> Option<(Seq<char>, Seq<char>)>
    decreases files.len() - from,
{
    if from < 0 || from >= files.len() {
        None
    } else {
        match files[from] {
            Some(content) => match toml_document(content@) {
                Some(entries) => credentials_in(entries@),
                None => credentials_of(files, from + 1),
            },
            None => credentials_of(files, from + 1),
        }
    }
}

/// Reads the credentials from the contents of the candidate files, given
/// in their order of precedence; a file that is missing is given as
/// nothing.
pub fn load_credentials(files: &Vec<Option<String>>) -> (r: Option<Credentials>)
    ensures
        match r {
            Some(c) => credentials_of(files@, 0) == Some((c.key@, c.secret@)),
            None => credentials_of(files@, 0) is None,
        },
{
    let mut i: usize = 0;
    while i < files.len()
        invariant
            i <= files.len(),
            credentials_of(files@, 0) == credentials_of(files@, i as int),
        decreases files.len() - i,
    {
        match &files[i] {
            Some(content) => match parse_toml(content.as_str()) {
                Some(entries) => {
                    let key = get_text(&entries, "consumer_key");
                    let secret = get_text(&entries, "consumer_secret");
                    return match (key, secret) {
                        (Some(k), Some(s)) => Some(Credentials { key: k, secret: s }),
                        _ => None,
                    };
                },
                None => {},
            },
            None => {},
        }
        i += 1;
    }
    None
}

/// Tells whether the candidate files hold credentials.
pub fn has_credentials(files: &Vec<Option<String>>) -> (r: bool)
    ensures
        r == credentials_of(files@, 0) is Some,
{
    load_credentials(files).is_some()
}

/// The paths at which credentials are looked for, in their order of
/// precedence: the working directory, the system configuration, and the
/// configuration of the user whose home directory is `home`.
pub fn credential_paths(home: Option<&str>) -> (r: Vec<String>)
    ensures
        r@.len() == if home is Some {
            3nat
        } else {
            2nat
        },
        r@[0]@ == "discogs_credentials.toml"@,
        r@[1]@ == "/etc/autorec/discogs_credentials.toml"@,
        home matches Some(h) ==> r@[2]@ == h@ + "/.config/autorec/discogs_credentials.toml"@,
{
    let mut paths: Vec<String> = Vec::new();
    paths.push(String::from_str("discogs_credentials.toml"));
    paths.push(String::from_str("/etc/autorec/discogs_credentials.toml"));
    match home {
        Some(h) => {
            let mut path = String::from_str(h);
            path.append("/.config/autorec/discogs_credentials.toml");
            paths.push(path);
        },
        None => {},
    }
    paths
}

/// A track of a release.
#[derive(Clone, Debug)]
pub struct DiscogsTrack {
    /// Position of the track, such as `A1`.
    pub position: String,
    /// Side of the track.
    pub side: char,
    /// Title of the track.
    pub title: String,
    /// Duration of the track, 0 where the release does not tell.
    pub duration_us: u64,
}

/// A side of a release.
#[derive(Clone, Debug)]
pub struct DiscogsSide {
    /// Letter of the side.
    pub label: char,
    /// Tracks of the side, in order.
    pub tracks: Vec<DiscogsTrack>,
    /// Sum of the durations of the tracks.
    pub total_duration_us: u64,
}

/// A release.
#[derive(Clone, Debug)]
pub struct DiscogsRelease {
    /// Identifier of the release.
    pub release_id: u64,
    /// Title of the release.
    pub title: String,
    /// Artist of the release.
    pub artist: String,
    /// Year of the release, where known.
    pub year: Option<u32>,
    /// Whether the release is on vinyl.
    pub is_vinyl: bool,
    /// Sides of the release, by their letters.
    pub sides: Vec<DiscogsSide>,
}

/// A release as a search reports it.
#[derive(Clone, Debug)]
pub struct DiscogsSearchResult {
    /// Identifier of the release.
    pub release_id: u64,
    /// Title of the release.
    pub title: String,
    /// Formats of the release.
    pub format: Vec<String>,
    /// Country of the release, where known.
    pub country: Option<String>,
    /// Year of the release, where known.
    pub year: Option<String>,
    /// Identifier of the master release, where there is one.
    pub master_id: Option<u64>,
    /// Whether the release is on vinyl.
    pub is_vinyl: bool,
}

/// The number that `part` writes in digits, with a plus sign before them
/// or without; 0 for any other text.
pub open spec fn part_value(part: Seq<char>) -> int {
    match parsed_number(part) {
        Some(n) => n as int,
        None => 0,
    }
}

/// The duration that a text such as `4:05` or `1:02:30` gives, in
/// microseconds: minutes and seconds, or hours, minutes and seconds. A
/// part that is no number counts as 0, a text of another shape as 0.
pub open spec fn duration_value(s: Seq<char>) -> int {
    let parts = pieces_of(s, ':');
    if parts.len() == 2 {
        (part_value(parts[0]) * 60 + part_value(parts[1])) * 1_000_000
    } else if parts.len() == 3 {
        (part_value(parts[0]) * 3600 + part_value(parts[1]) * 60 + part_value(parts[2]))
            * 1_000_000
    } else {
        0
    }
}

fn part_number(part: &Vec<char>) -> (r: u64)
    ensures
        r == part_value(part@),
{
    match parse_number(part) {
        Some(n) => n,
        None => 0,
    }
}

/// Reads a duration such as `4:05`. A duration beyond the range of the
/// result is given as the longest one.
pub fn parse_duration(s: &str) -> (r: u64)
    ensures
        r == if duration_value(s@) > u64::MAX {
            u64::MAX as int
        } else {
            duration_value(s@)
        },
{
    let chars = chars_of(s);
    let parts = split_on(&chars, ':');
    let seconds: u128 = if parts.len() == 2 {
        assert(texts_of(parts@)[0] == parts@[0]@ && texts_of(parts@)[1] == parts@[1]@);
        part_number(&parts[0]) as u128 * 60 + part_number(&parts[1]) as u128
    } else if parts.len() == 3 {
        assert(texts_of(parts@)[0] == parts@[0]@ && texts_of(parts@)[1] == parts@[1]@ && texts_of(
            parts@,
        )[2] == parts@[2]@);
        part_number(&parts[0]) as u128 * 3600 + part_number(&parts[1]) as u128 * 60 + part_number(
            &parts[2],
        ) as u128
    } else {
        assert(texts_of(parts@).len() == parts@.len());
        0
    };
    let micros: u128 = seconds * 1_000_000;
    if micros > u64::MAX as u128 {
        u64::MAX
    } else {
        micros as u64
    }
}

/// Index of the first ASCII letter in `s[from..]`; the length where there
/// is none.
pub open spec fn first_letter(s: Seq<char>, from: int) -> int
    decreases s.len() - from,
{
    if from < 0 || from >= s.len() {
        s.len() as int
    } else if is_ascii_letter(s[from]) {
        from
    } else {
        first_letter(s, from + 1)
    }
}

/// The side that a position names: its first ASCII letter, in upper case;
/// `?` where it has none.
pub open spec fn side_of_position(pos: Seq<char>) -> char {
    let i = first_letter(pos, 0);
    if i < pos.len() {
        ascii_upper(pos[i])
    } else {
        '?'
    }
}

/// Returns the side that a position such as `A1` or `b2.a` names.
pub fn side_from_position(pos: &str) -> (r: char)
    ensures
        r == side_of_position(pos@),
        r == '?' || ('A' <= r <= 'Z'),
{
    let chars = chars_of(pos);
    let mut i: usize = 0;
    while i < chars.len()
        invariant
            i <= chars.len(),
            chars@ == pos@,
            first_letter(chars@, 0) == first_letter(chars@, i as int),
        decreases chars.len() - i,
    {
        let c = chars[i];
        if ('a' <= c && c <= 'z') || ('A' <= c && c <= 'Z') {
            assert(is_ascii_letter(chars@[i as int]));
            assert(first_letter(chars@, i as int) == i);
            return to_ascii_upper(c);
        }
        i += 1;
    }
    '?'
}

/// Number of leading digits of `s[from..]`.
pub open spec fn digit_run(s: Seq<char>, from: int) -> int
    decreases s.len() - from,
{
    if 0 <= from < s.len() && is_digit(s[from]) {
        1 + digit_run(s, from + 1)
    } else {
        0
    }
}

/// The release that a reference names: the number behind the first
/// `/release/` of a URL, or the number that the reference, less the white
/// space around it, writes, with a plus sign before it or without.
pub open spec fn release_in(url: Seq<char>) -> Option<u64> {
    if contains_text(url, "/release/"@) {
        let at = first_occurrence(url, "/release/"@, 0) + 9;
        parsed_digits(url.subrange(at, at + digit_run(url, at)))
    } else {
        parsed_number(trimmed(url))
    }
}

/// Index of the first occurrence of `needle` in `hay` at or after `from`;
/// the length of `hay` where there is none.
pub open spec fn first_occurrence(hay: Seq<char>, needle: Seq<char>, from: int) -> int
    decreases hay.len() - from,
{
    if from < 0 || from >= hay.len() {
        hay.len() as int
    } else if occurs_at(hay, needle, from) {
        from
    } else {
        first_occurrence(hay, needle, from + 1)
    }
}

proof fn lemma_first_occurrence(hay: Seq<char>, needle: Seq<char>, at: int, from: int)
    requires
        0 <= from <= at < hay.len(),
        occurs_at(hay, needle, at),
        forall|j: int| 0 <= j < at ==> !occurs_at(hay, needle, j),
    ensures
        first_occurrence(hay, needle, from) == at,
    decreases at - from,
{
    if from < at {
        lemma_first_occurrence(hay, needle, at, from + 1);
    }
}

/// Reads the identifier of a release from a URL or from a number.
pub fn parse_discogs_url(url: &str) -> (r: Option<u64>)
    ensures
        r == release_in(url@),
{
    let chars = chars_of(url);
    let marker = chars_of("/release/");
    proof {
        reveal_strlit("/release/");
    }
    match find_text(&chars, &marker) {
        Some(at) => {
            proof {
                lemma_first_occurrence(chars@, marker@, at as int, 0);
            }
            let from: usize = at + 9;
            let mut to: usize = from;
            while to < chars.len() && '0' <= chars[to] && chars[to] <= '9'
                invariant
                    from <= to <= chars.len(),
                    digit_run(chars@, from as int) == (to - from) + digit_run(chars@, to as int),
                decreases chars.len() - to,
            {
                to += 1;
            }
            let digits = slice_of(&chars, from, to);
            parse_digits(&digits)
        },
        None => {
            let stripped = trim(&chars);
            parse_number(&stripped)
        },
    }
}

/// What a character becomes in a query: a space becomes a plus, and `&`,
/// `=` and `#` are written in hexadecimal.
pub open spec fn encoded_char(c: char) -> Seq<char> {
    if c == ' ' {
        "+"@
    } else if c == '&' {
        "%26"@
    } else if c == '=' {
        "%3D"@
    } else if c == '#' {
        "%23"@
    } else {
        seq![c]
    }
}

/// `s[..upto]` as it stands in a query.
pub open spec fn encoded_text(s: Seq<char>, upto: int) -> Seq<char>
    decreases upto,
{
    if upto <= 0 {
        Seq::empty()
    } else {
        encoded_text(s, upto - 1) + encoded_char(s[upto - 1])
    }
}

/// Encodes a text for the query of a search.
pub fn urlencoded(s: &str) -> (r: String)
    ensures
        r@ == encoded_text(s@, s@.len() as int),
{
    let chars = chars_of(s);
    let mut out: Vec<char> = Vec::new();
    let mut i: usize = 0;
    while i < chars.len()
        invariant
            i <= chars.len(),
            out@ == encoded_text(chars@, i as int),
        decreases chars.len() - i,
    {
        let c = chars[i];
        if c == ' ' {
            append_str(&mut out, "+");
        } else if c == '&' {
            append_str(&mut out, "%26");
        } else if c == '=' {
            append_str(&mut out, "%3D");
        } else if c == '#' {
            append_str(&mut out, "%23");
        } else {
            out.push(c);
            assert(out@ =~= encoded_text(chars@, i as int) + seq![c]);
        }
        i += 1;
    }
    string_of(&out)
}

/// Sum of the durations of `tracks[..upto]`.
pub open spec fn total_of(tracks: Seq<DiscogsTrack>, upto: int) -> int
    decreases upto,
{
    if upto <= 0 {
        0
    } else {
        total_of(tracks, upto - 1) + tracks[upto - 1].duration_us
    }
}

/// The tracks among `tracks[..upto]` of the side `label`, in order.
pub open spec fn tracks_of_side(tracks: Seq<DiscogsTrack>, label: char, upto: int) -> Seq<
    DiscogsTrack,
>
    decreases upto,
{
    if upto <= 0 {
        Seq::empty()
    } else if tracks[upto - 1].side == label {
        tracks_of_side(tracks, label, upto - 1).push(tracks[upto - 1])
    } else {
        tracks_of_side(tracks, label, upto - 1)
    }
}

/// Some track of `tracks` is on the side `label`.
pub open spec fn has_side(tracks: Seq<DiscogsTrack>, label: char) -> bool {
    exists|i: int| 0 <= i < tracks.len() && (#[trigger] tracks[i]).side == label
}

/// `sides` are the sides of `tracks`: one side for every letter that a
/// track carries, in the order of the letters, each with the tracks of its
/// letter in their order and with the sum of their durations.
pub open spec fn groups(sides: Seq<DiscogsSide>, tracks: Seq<DiscogsTrack>) -> bool {
    &&& forall|a: int, b: int|
        0 <= a < b < sides.len() ==> (#[trigger] sides[a]).label < (#[trigger] sides[b]).label
    &&& forall|a: int|
        0 <= a < sides.len() ==> {
            &&& has_side(tracks, (#[trigger] sides[a]).label)
            &&& sides[a].tracks@ == tracks_of_side(tracks, sides[a].label, tracks.len() as int)
            &&& sides[a].total_duration_us == total_of(
                sides[a].tracks@,
                sides[a].tracks@.len() as int,
            )
        }
    &&& forall|i: int|
        0 <= i < tracks.len() ==> exists|a: int|
            0 <= a < sides.len() && (#[trigger] sides[a]).label == (#[trigger] tracks[i]).side
}

/// Copies a track.
pub fn copy_discogs_track(t: &DiscogsTrack) -> (r: DiscogsTrack)
    ensures
        r == *t,
{
    DiscogsTrack {
        position: t.position.clone(),
        side: t.side,
        title: t.title.clone(),
        duration_us: t.duration_us,
    }
}

fn side_tracks(tracks: &Vec<DiscogsTrack>, label: char) -> (r: (Vec<DiscogsTrack>, u64))
    requires
        total_of(tracks@, tracks@.len() as int) <= u64::MAX,
    ensures
        r.0@ == tracks_of_side(tracks@, label, tracks@.len() as int),
        r.1 == total_of(r.0@, r.0@.len() as int),
{
    let mut out: Vec<DiscogsTrack> = Vec::new();
    let mut total: u64 = 0;
    let mut i: usize = 0;
    while i < tracks.len()
        invariant
            i <= tracks.len(),
            out@ == tracks_of_side(tracks@, label, i as int),
            total == total_of(out@, out@.len() as int),
            total <= total_of(tracks@, i as int),
            total_of(tracks@, tracks@.len() as int) <= u64::MAX,
        decreases tracks.len() - i,
    {
        proof {
            lemma_total_grows(tracks@, i + 1, tracks@.len() as int);
        }
        if tracks[i].side == label {
            let ghost before = out@;
            out.push(copy_discogs_track(&tracks[i]));
            proof {
                lemma_total_same_prefix(out@, before, before.len() as int);
            }
            total = total + tracks[i].duration_us;
        }
        i += 1;
    }
    (out, total)
}

/// The sum over more tracks is no smaller.
pub proof fn lemma_total_grows(tracks: Seq<DiscogsTrack>, a: int, b: int)
    requires
        0 <= a <= b <= tracks.len(),
    ensures
        total_of(tracks, a) <= total_of(tracks, b),
    decreases b - a,
{
    if a < b {
        lemma_total_grows(tracks, a, b - 1);
    }
}

/// The sum over a prefix depends on the prefix alone.
pub proof fn lemma_total_same_prefix(a: Seq<DiscogsTrack>, b: Seq<DiscogsTrack>, upto: int)
    requires
        0 <= upto <= a.len(),
        upto <= b.len(),
        forall|i: int| 0 <= i < upto ==> a[i] == b[i],
    ensures
        total_of(a, upto) == total_of(b, upto),
    decreases upto,
{
    if upto > 0 {
        lemma_total_same_prefix(a, b, upto - 1);
    }
}

/// How many letters are left above the last one taken.
pub open spec fn letters_left(covered: Option<char>) -> int {
    match covered {
        Some(c) => 0x11_0000 - (c as u32),
        None => 0x11_0001,
    }
}

/// Groups the tracks of a release into its sides.
pub fn group_into_sides(tracks: &Vec<DiscogsTrack>) -> (r: Vec<DiscogsSide>)
    requires
        total_of(tracks@, tracks@.len() as int) <= u64::MAX,
    ensures
        groups(r@, tracks@),
{
    let mut sides: Vec<DiscogsSide> = Vec::new();
    // Letters are taken in ascending order: each round takes the lowest
    // letter above the last one taken.
    let mut covered: Option<char> = None;
    let mut done: bool = false;
    while !done
        invariant
            total_of(tracks@, tracks@.len() as int) <= u64::MAX,
            forall|a: int, b: int|
                0 <= a < b < sides@.len() ==> (#[trigger] sides@[a]).label < (
                #[trigger] sides@[b]).label,
            forall|a: int|
                0 <= a < sides@.len() ==> {
                    &&& has_side(tracks@, (#[trigger] sides@[a]).label)
                    &&& sides@[a].tracks@ == tracks_of_side(
                        tracks@,
                        sides@[a].label,
                        tracks@.len() as int,
                    )
                    &&& sides@[a].total_duration_us == total_of(
                        sides@[a].tracks@,
                        sides@[a].tracks@.len() as int,
                    )
                },
            covered is None ==> sides@.len() == 0,
            covered matches Some(c) ==> sides@.len() > 0 && sides@[sides@.len() - 1].label == c,
            forall|i: int|
                0 <= i < tracks@.len() && (covered matches Some(c) && (
                #[trigger] tracks@[i]).side <= c) ==> exists|a: int|
                    0 <= a < sides@.len() && (#[trigger] sides@[a]).label == tracks@[i].side,
            done ==> forall|i: int|
                0 <= i < tracks@.len() ==> (covered matches Some(c) && (
                #[trigger] tracks@[i]).side <= c),
        decreases letters_left(covered) + if done { 0int } else { 1int },
    {
        let mut next: Option<char> = None;
        let mut i: usize = 0;
        while i < tracks.len()
            invariant
                i <= tracks.len(),
                match next {
                    Some(n) => {
                        &&& has_side(tracks@, n)
                        &&& (covered matches Some(c) ==> n > c)
                        &&& forall|j: int|
                            0 <= j < i && !(covered matches Some(c) && (
                            #[trigger] tracks@[j]).side <= c) ==> n <= tracks@[j].side
                    },
                    None => forall|j: int|
                        0 <= j < i ==> (covered matches Some(c) && (#[trigger] tracks@[j]).side
                            <= c),
                },
            decreases tracks.len() - i,
        {
            let s = tracks[i].side;
            let above: bool = match covered {
                Some(c) => s > c,
                None => true,
            };
            let lower: bool = match next {
                Some(n) => s < n,
                None => true,
            };
            if above && lower {
                next = Some(s);
            }
            i += 1;
        }
        match next {
            Some(label) => {
                let (members, total) = side_tracks(tracks, label);
                let ghost before = sides@;
                sides.push(DiscogsSide { label, tracks: members, total_duration_us: total });
                covered = Some(label);
                proof {
                    assert forall|i: int|
                        0 <= i < tracks@.len() && (#[trigger] tracks@[i]).side <= label implies exists|
                        a: int,
                    |
                        0 <= a < sides@.len() && (#[trigger] sides@[a]).label == tracks@[i].side by {
                        if tracks@[i].side == label {
                            assert(sides@[sides@.len() - 1].label == label);
                        } else {
                            let a = choose|a: int|
                                0 <= a < before.len() && (#[trigger] before[a]).label
                                    == tracks@[i].side;
                            assert(sides@[a].label == tracks@[i].side);
                        }
                    }
                }
            },
            None => {
                done = true;
            },
        }
    }
    sides
}

/// The digits among `s[..upto]`, in order.
pub open spec fn digits_in(s: Seq<char>, upto: int) -> Seq<char>
    decreases upto,
{
    if upto <= 0 {
        Seq::empty()
    } else if is_digit(s[upto - 1]) {
        digits_in(s, upto - 1).push(s[upto - 1])
    } else {
        digits_in(s, upto - 1)
    }
}

/// The number of a track: what the digits of its position write, 0 where
/// it has none or they write too large a number.
pub open spec fn track_number(position: Seq<char>) -> u32 {
    match parsed_digits(digits_in(position, position.len() as int)) {
        Some(n) => if n <= u32::MAX {
            n as u32
        } else {
            0
        },
        None => 0,
    }
}

/// Returns the number of a track: what the digits of its position write.
pub fn number_of_track(position: &str) -> (r: u32)
    ensures
        r == track_number(position@),
{
    let chars = chars_of(position);
    let mut digits: Vec<char> = Vec::new();
    let mut i: usize = 0;
    while i < chars.len()
        invariant
            i <= chars.len(),
            digits@ == digits_in(chars@, i as int),
        decreases chars.len() - i,
    {
        let c = chars[i];
        if '0' <= c && c <= '9' {
            digits.push(c);
        }
        i += 1;
    }
    match parse_digits(&digits) {
        Some(n) => if n <= u32::MAX as u64 {
            n as u32
        } else {
            0
        },
        None => 0,
    }
}

/// Sum of the lengths of `tracks[..upto]`.
pub open spec fn lengths_before(tracks: Seq<ExpectedTrack>, upto: int) -> int
    decreases upto,
{
    if upto <= 0 {
        0
    } else {
        lengths_before(tracks, upto - 1) + tracks[upto - 1].length_us
    }
}

/// Every track starts where the tracks before it end: its expected start
/// is the sum of their lengths.
pub open spec fn starts_are_cumulative(tracks: Seq<ExpectedTrack>) -> bool {
    forall|i: int|
        0 <= i < tracks.len() ==> (#[trigger] tracks[i]).expected_start_us == lengths_before(
            tracks,
            i,
        )
}

/// Expected starts that are cumulative do not decrease.
pub proof fn lemma_cumulative_starts_grow(tracks: Seq<ExpectedTrack>, a: int, b: int)
    requires
        starts_are_cumulative(tracks),
        0 <= a <= b < tracks.len(),
    ensures
        tracks[a].expected_start_us <= tracks[b].expected_start_us,
    decreases b - a,
{
    if a < b {
        lemma_cumulative_starts_grow(tracks, a, b - 1);
    }
}

/// Lists the tracks of a side with their numbers, their lengths and the
/// starts expected from the lengths before them.
pub fn side_to_expected_tracks(side: &DiscogsSide) -> (r: Vec<ExpectedTrack>)
    requires
        total_of(side.tracks@, side.tracks@.len() as int) <= u64::MAX,
    ensures
        r@.len() == side.tracks@.len(),
        forall|i: int|
            0 <= i < r@.len() ==> {
                &&& (#[trigger] r@[i]).position == track_number(side.tracks@[i].position@)
                &&& r@[i].title == side.tracks@[i].title
                &&& r@[i].length_us == side.tracks@[i].duration_us
                &&& r@[i].expected_start_us == total_of(side.tracks@, i)
            },
        starts_are_cumulative(r@),
{
    let mut out: Vec<ExpectedTrack> = Vec::new();
    let mut cumulative: u64 = 0;
    let mut i: usize = 0;
    while i < side.tracks.len()
        invariant
            i <= side.tracks.len(),
            total_of(side.tracks@, side.tracks@.len() as int) <= u64::MAX,
            cumulative == total_of(side.tracks@, i as int),
            out@.len() == i,
            forall|k: int|
                0 <= k < i ==> {
                    &&& (#[trigger] out@[k]).position == track_number(side.tracks@[k].position@)
                    &&& out@[k].title == side.tracks@[k].title
                    &&& out@[k].length_us == side.tracks@[k].duration_us
                    &&& out@[k].expected_start_us == total_of(side.tracks@, k)
                },
            forall|k: int| 0 <= k <= i ==> lengths_before(out@, k) == total_of(side.tracks@, k),
        decreases side.tracks.len() - i,
    {
        proof {
            lemma_total_grows(side.tracks@, i + 1, side.tracks@.len() as int);
        }
        let t = &side.tracks[i];
        let ghost before = out@;
        out.push(
            ExpectedTrack {
                position: number_of_track(t.position.as_str()),
                title: t.title.clone(),
                length_us: t.duration_us,
                expected_start_us: cumulative,
            },
        );
        proof {
            assert forall|k: int| 0 <= k <= i + 1 implies lengths_before(out@, k) == total_of(
                side.tracks@,
                k,
            ) by {
                if k <= i {
                    lemma_lengths_same_prefix(out@, before, k);
                } else {
                    lemma_lengths_same_prefix(out@, before, i as int);
                }
            }
        }
        cumulative = cumulative + t.duration_us;
        i += 1;
    }
    out
}

/// The sum over a prefix depends on the prefix alone.
pub proof fn lemma_lengths_same_prefix(a: Seq<ExpectedTrack>, b: Seq<ExpectedTrack>, upto: int)
    requires
        0 <= upto <= a.len(),
        upto <= b.len(),
        forall|i: int| 0 <= i < upto ==> a[i] == b[i],
    ensures
        lengths_before(a, upto) == lengths_before(b, upto),
    decreases upto,
{
    if upto > 0 {
        lemma_lengths_same_prefix(a, b, upto - 1);
    }
}

/// The titles of the tracks of a side.
pub open spec fn side_titles(tracks: Seq<DiscogsTrack>) -> Seq<Seq<char>> {
    Seq::new(tracks.len(), |i: int| tracks[i].title@)
}

/// Score of a set of tracks against a file: the share of the songs that
/// match one of the titles, weighted by 100, plus the duration score,
/// weighted by 10, which is 0 for a set of unknown duration; in
/// thousandths.
pub open spec fn track_set_score(
    songs: Seq<Seq<char>>,
    titles: Seq<Seq<char>>,
    total_us: int,
    file_us: int,
) -> int {
    (if songs.len() == 0 {
        0
    } else {
        FULL_SONG_SCORE * matched_songs(songs, lowered(titles), songs.len() as int) / (
        songs.len() as int)
    }) + (if total_us <= 0 {
        0
    } else {
        duration_score(total_us, file_us)
    })
}

/// Scores a set of tracks, given by its titles and its total duration,
/// against the songs and the duration of a file.
pub fn score_track_titles(
    song_titles: &Vec<String>,
    titles: &Vec<String>,
    total_us: u64,
    file_duration_us: u64,
) -> (r: u64)
    ensures
        r == track_set_score(
            strings_of(song_titles@),
            strings_of(titles@),
            total_us as int,
            file_duration_us as int,
        ),
        r <= FULL_SONG_SCORE + FULL_DURATION_SCORE,
{
    let ghost low = lowered(strings_of(titles@));
    let song_part: u64 = if song_titles.len() == 0 {
        0
    } else {
        let mut lower: Vec<Vec<char>> = Vec::new();
        let mut t: usize = 0;
        while t < titles.len()
            invariant
                t <= titles.len(),
                low == lowered(strings_of(titles@)),
                lower@.len() == t,
                forall|k: int| 0 <= k < t ==> lower@[k]@ == low[k],
            decreases titles.len() - t,
        {
            assert(strings_of(titles@)[t as int] == titles@[t as int]@);
            lower.push(lower_chars(titles[t].as_str()));
            t += 1;
        }
        assert(texts_of(lower@) =~= low);
        let matched = count_matching_songs(song_titles, &lower);
        song_points(matched, song_titles.len())
    };
    let duration_part: u64 = if total_us == 0 {
        0
    } else {
        duration_points(total_us, file_duration_us)
    };
    song_part + duration_part
}

fn titles_of_side(side: &DiscogsSide) -> (r: Vec<String>)
    ensures
        strings_of(r@) == side_titles(side.tracks@),
{
    let mut out: Vec<String> = Vec::new();
    let mut i: usize = 0;
    while i < side.tracks.len()
        invariant
            i <= side.tracks.len(),
            out@.len() == i,
            forall|k: int| 0 <= k < i ==> (#[trigger] out@[k])@ == side.tracks@[k].title@,
        decreases side.tracks.len() - i,
    {
        out.push(side.tracks[i].title.clone());
        i += 1;
    }
    assert(strings_of(out@) =~= side_titles(side.tracks@));
    out
}

/// Score of a side against a file.
pub open spec fn discogs_side_score(side: DiscogsSide, songs: Seq<Seq<char>>, file_us: int) -> int {
    track_set_score(songs, side_titles(side.tracks@), side.total_duration_us as int, file_us)
}

/// Scores a side against the songs and the duration of a file.
pub fn score_side(side: &DiscogsSide, file_duration_us: u64, song_titles: &Vec<String>) -> (r: u64)
    ensures
        r == discogs_side_score(*side, strings_of(song_titles@), file_duration_us as int),
{
    let titles = titles_of_side(side);
    score_track_titles(song_titles, &titles, side.total_duration_us, file_duration_us)
}

/// Index of the best side among `sides[..upto]`: the side with tracks that
/// scores highest, the first among equals; -1 where no side has tracks.
pub open spec fn best_side_index(
    sides: Seq<DiscogsSide>,
    songs: Seq<Seq<char>>,
    file_us: int,
    upto: int,
) -> int
    decreases upto,
{
    if upto <= 0 {
        -1
    } else {
        let before = best_side_index(sides, songs, file_us, upto - 1);
        if sides[upto - 1].tracks@.len() > 0 && (before < 0 || discogs_side_score(
            sides[upto - 1],
            songs,
            file_us,
        ) > discogs_side_score(sides[before], songs, file_us)) {
            upto - 1
        } else {
            before
        }
    }
}

/// The best side has tracks.
pub proof fn lemma_best_side_has_tracks(
    sides: Seq<DiscogsSide>,
    songs: Seq<Seq<char>>,
    file_us: int,
    upto: int,
)
    requires
        0 <= upto <= sides.len(),
    ensures
        -1 <= best_side_index(sides, songs, file_us, upto) < upto,
        best_side_index(sides, songs, file_us, upto) >= 0 ==> sides[best_side_index(
            sides,
            songs,
            file_us,
            upto,
        )].tracks@.len() > 0,
    decreases upto,
{
    if upto > 0 {
        lemma_best_side_has_tracks(sides, songs, file_us, upto - 1);
    }
}

/// Finds the side of a release that matches a file best. A side without
/// tracks is never the best; of equally good sides the first is.
pub fn find_best_side<'a>(
    release: &'a DiscogsRelease,
    file_duration_us: u64,
    song_titles: &Vec<String>,
) -> (r: Option<&'a DiscogsSide>)
    ensures
        match r {
            Some(side) => {
                let k = best_side_index(
                    release.sides@,
                    strings_of(song_titles@),
                    file_duration_us as int,
                    release.sides@.len() as int,
                );
                0 <= k < release.sides@.len() && *side == release.sides@[k]
            },
            None => best_side_index(
                release.sides@,
                strings_of(song_titles@),
                file_duration_us as int,
                release.sides@.len() as int,
            ) == -1,
        },
{
    let mut found: bool = false;
    let mut best: usize = 0;
    let mut best_score: u64 = 0;
    let mut i: usize = 0;
    while i < release.sides.len()
        invariant
            i <= release.sides.len(),
            found ==> best < i && best == best_side_index(
                release.sides@,
                strings_of(song_titles@),
                file_duration_us as int,
                i as int,
            ) && best_score == discogs_side_score(
                release.sides@[best as int],
                strings_of(song_titles@),
                file_duration_us as int,
            ),
            !found ==> best_side_index(
                release.sides@,
                strings_of(song_titles@),
                file_duration_us as int,
                i as int,
            ) == -1,
        decreases release.sides.len() - i,
    {
        if release.sides[i].tracks.len() > 0 {
            let score = score_side(&release.sides[i], file_duration_us, song_titles);
            if !found || score > best_score {
                found = true;
                best = i;
                best_score = score;
            }
        }
        i += 1;
    }
    if found {
        Some(&release.sides[best])
    } else {
        None
    }
}

/// A track as the service lists it.
#[derive(Clone, Debug)]
pub struct ListedTrack {
    /// Position of the track.
    pub position: String,
    /// Title of the track.
    pub title: String,
    /// Duration of the track, as text.
    pub duration: String,
    /// Kind of the entry; `track` for a track.
    pub track_type: String,
}

/// A format as the service lists it.
#[derive(Clone, Debug)]
pub struct ListedFormat {
    /// Name of the format.
    pub name: String,
    /// Descriptions of the format.
    pub descriptions: Vec<String>,
}

/// The tracks among the entries `listed[..upto]`, with their sides and
/// durations.
pub open spec fn is_track_of(t: DiscogsTrack, e: ListedTrack) -> bool {
    &&& t.position == e.position
    &&& t.title == e.title
    &&& t.side == side_of_position(e.position@)
    &&& t.duration_us == if duration_value(e.duration@) > u64::MAX {
        u64::MAX as int
    } else {
        duration_value(e.duration@)
    }
}

/// Number of the entries among `listed[..upto]` that are tracks.
pub open spec fn tracks_among(listed: Seq<ListedTrack>, upto: int) -> int
    decreases upto,
{
    if upto <= 0 {
        0
    } else {
        tracks_among(listed, upto - 1) + if listed[upto - 1].track_type@ == "track"@ {
            1int
        } else {
            0int
        }
    }
}

/// `tracks` are the tracks of the listing: one for every entry of the
/// kind `track`, in order, with the side that its position names and its
/// duration.
pub open spec fn lists(tracks: Seq<DiscogsTrack>, listed: Seq<ListedTrack>) -> bool {
    &&& tracks.len() == tracks_among(listed, listed.len() as int)
    &&& forall|i: int|
        0 <= i < listed.len() && (#[trigger] listed[i]).track_type@ == "track"@ ==> is_track_of(
            tracks[tracks_among(listed, i)],
            listed[i],
        )
}

/// Reads the tracks from the entries of a track list.
pub fn tracks_from_listing(listed: &Vec<ListedTrack>) -> (r: Vec<DiscogsTrack>)
    ensures
        lists(r@, listed@),
{
    let mut out: Vec<DiscogsTrack> = Vec::new();
    let mut i: usize = 0;
    while i < listed.len()
        invariant
            i <= listed.len(),
            out@.len() == tracks_among(listed@, i as int),
            forall|k: int|
                0 <= k < i && (#[trigger] listed@[k]).track_type@ == "track"@ ==> 0
                    <= tracks_among(listed@, k) < out@.len() && is_track_of(
                    out@[tracks_among(listed@, k)],
                    listed@[k],
                ),
        decreases listed.len() - i,
    {
        let e = &listed[i];
        if crate::text::same_text(e.track_type.as_str(), "track") {
            out.push(
                DiscogsTrack {
                    position: e.position.clone(),
                    side: side_from_position(e.position.as_str()),
                    title: e.title.clone(),
                    duration_us: parse_duration(e.duration.as_str()),
                },
            );
        }
        i += 1;
    }
    out
}

/// Two readings of one listing have the same durations in total.
pub proof fn lemma_listing_total(
    a: Seq<DiscogsTrack>,
    b: Seq<DiscogsTrack>,
    listed: Seq<ListedTrack>,
    upto: int,
)
    requires
        lists(a, listed),
        lists(b, listed),
        0 <= upto <= listed.len(),
    ensures
        0 <= tracks_among(listed, upto) <= tracks_among(listed, listed.len() as int),
        total_of(a, tracks_among(listed, upto)) == total_of(b, tracks_among(listed, upto)),
    decreases listed.len() - upto,
{
    lemma_tracks_among_grows(listed, upto, listed.len() as int);
    lemma_tracks_among_grows(listed, 0, upto);
    lemma_listing_total_upto(a, b, listed, upto);
}

proof fn lemma_tracks_among_grows(listed: Seq<ListedTrack>, a: int, b: int)
    requires
        0 <= a <= b <= listed.len(),
    ensures
        tracks_among(listed, a) <= tracks_among(listed, b),
        tracks_among(listed, a) >= 0,
    decreases b - a, a,
{
    if a < b {
        lemma_tracks_among_grows(listed, a, b - 1);
    } else if a > 0 {
        lemma_tracks_among_grows(listed, a - 1, a - 1);
    }
}

proof fn lemma_listing_total_upto(
    a: Seq<DiscogsTrack>,
    b: Seq<DiscogsTrack>,
    listed: Seq<ListedTrack>,
    upto: int,
)
    requires
        lists(a, listed),
        lists(b, listed),
        0 <= upto <= listed.len(),
    ensures
        total_of(a, tracks_among(listed, upto)) == total_of(b, tracks_among(listed, upto)),
    decreases upto,
{
    if upto > 0 {
        lemma_listing_total_upto(a, b, listed, upto - 1);
        lemma_tracks_among_grows(listed, upto - 1, listed.len() as int);
        lemma_tracks_among_grows(listed, 0, upto - 1);
        lemma_tracks_among_grows(listed, upto, listed.len() as int);
        if listed[upto - 1].track_type@ == "track"@ {
            let k = tracks_among(listed, upto - 1);
            assert(is_track_of(a[k], listed[upto - 1]));
            assert(is_track_of(b[k], listed[upto - 1]));
        }
    }
}

/// A text equals `Vinyl` but for the case of its ASCII letters.
pub open spec fn is_vinyl_name(name: Seq<char>) -> bool {
    name.len() == 5 && ascii_upper(name[0]) == 'V' && ascii_upper(name[1]) == 'I' && ascii_upper(
        name[2],
    ) == 'N' && ascii_upper(name[3]) == 'Y' && ascii_upper(name[4]) == 'L'
}

/// A format tells of vinyl: its name is `Vinyl`, in any case, or one of
/// its descriptions holds `LP`.
pub open spec fn tells_vinyl(f: ListedFormat) -> bool {
    is_vinyl_name(f.name@) || exists|d: int|
        0 <= d < f.descriptions@.len() && contains_text((#[trigger] f.descriptions@[d])@, "LP"@)
}

/// Some format among `formats[..upto]` tells of vinyl.
pub open spec fn any_vinyl(formats: Seq<ListedFormat>, upto: int) -> bool {
    exists|i: int| 0 <= i < upto && tells_vinyl(#[trigger] formats[i])
}

fn format_tells_vinyl(f: &ListedFormat) -> (r: bool)
    ensures
        r == tells_vinyl(*f),
{
    let name = chars_of(f.name.as_str());
    if name.len() == 5 && to_ascii_upper(name[0]) == 'V' && to_ascii_upper(name[1]) == 'I'
        && to_ascii_upper(name[2]) == 'N' && to_ascii_upper(name[3]) == 'Y' && to_ascii_upper(
        name[4],
    ) == 'L' {
        return true;
    }
    let lp = chars_of("LP");
    let mut d: usize = 0;
    while d < f.descriptions.len()
        invariant
            d <= f.descriptions.len(),
            lp@ == "LP"@,
            forall|k: int| 0 <= k < d ==> !contains_text((#[trigger] f.descriptions@[k])@, "LP"@),
        decreases f.descriptions.len() - d,
    {
        let text = chars_of(f.descriptions[d].as_str());
        if contains(&text, &lp) {
            return true;
        }
        d += 1;
    }
    false
}

/// Tells whether the formats of a release tell of vinyl.
pub fn is_vinyl_release(formats: &Vec<ListedFormat>) -> (r: bool)
    ensures
        r == any_vinyl(formats@, formats@.len() as int),
{
    let mut i: usize = 0;
    while i < formats.len()
        invariant
            i <= formats.len(),
            !any_vinyl(formats@, i as int),
        decreases formats.len() - i,
    {
        if format_tells_vinyl(&formats[i]) {
            return true;
        }
        i += 1;
    }
    false
}

/// Puts a release together from what the service lists: the first artist,
/// or `Unknown Artist`; vinyl where a format tells so; the tracks grouped
/// into their sides.
pub fn build_release(
    release_id: u64,
    title: String,
    artists: &Vec<String>,
    formats: &Vec<ListedFormat>,
    tracklist: &Vec<ListedTrack>,
    year: Option<u32>,
) -> (r: Option<DiscogsRelease>)
    ensures
        match r {
            Some(release) => {
                &&& release.release_id == release_id
                &&& release.title == title
                &&& release.artist@ == first_or(strings_of(artists@), "Unknown Artist"@)
                &&& release.year == year
                &&& release.is_vinyl == any_vinyl(formats@, formats@.len() as int)
                &&& exists|tracks: Seq<DiscogsTrack>|
                    #[trigger] groups(release.sides@, tracks) && lists(tracks, tracklist@)
                        && total_of(tracks, tracks.len() as int) <= u64::MAX
            },
            None => forall|tracks: Seq<DiscogsTrack>| #[trigger]
                lists(tracks, tracklist@) ==> total_of(tracks, tracks.len() as int) > u64::MAX,
        },
{
    let tracks = tracks_from_listing(tracklist);
    let mut total: u64 = 0;
    let mut i: usize = 0;
    while i < tracks.len()
        invariant
            i <= tracks.len(),
            lists(tracks@, tracklist@),
            total == total_of(tracks@, i as int),
        decreases tracks.len() - i,
    {
        if tracks[i].duration_us > u64::MAX - total {
            proof {
                lemma_total_grows(tracks@, i + 1, tracks@.len() as int);
                assert forall|other: Seq<DiscogsTrack>| #[trigger]
                    lists(other, tracklist@) implies total_of(other, other.len() as int)
                    > u64::MAX by {
                    lemma_listing_total(tracks@, other, tracklist@, tracklist@.len() as int);
                }
            }
            return None;
        }
        total = total + tracks[i].duration_us;
        i += 1;
    }
    let artist: String = if artists.len() > 0 {
        assert(strings_of(artists@)[0] == artists@[0]@);
        artists[0].clone()
    } else {
        assert(strings_of(artists@).len() == 0);
        String::from_str("Unknown Artist")
    };
    let sides = group_into_sides(&tracks);
    assert(groups(sides@, tracks@) && lists(tracks@, tracklist@) && total_of(
        tracks@,
        tracks@.len() as int,
    ) <= u64::MAX);
    let is_vinyl = is_vinyl_release(formats);
    let release = DiscogsRelease { release_id, title, artist, year, is_vinyl, sides };
    assert(release.artist@ == first_or(strings_of(artists@), "Unknown Artist"@));
    assert(release.is_vinyl == any_vinyl(formats@, formats@.len() as int));
    assert(groups(release.sides@, tracks@));
    Some(release)
}

/// The artists of the songs, in the order of the songs.
pub open spec fn song_artists(songs: Seq<IdentifiedSong>) -> Seq<Seq<char>> {
    crate::album_identifier::artists_named(songs)
}

/// Names the most frequent artist and the most frequent album of the
/// songs, `Unknown` where there is none; of equally frequent names the
/// first seen.
pub fn most_common_artist_album(songs: &Vec<IdentifiedSong>) -> (r: (String, String))
    ensures
        r.0@ == first_or(by_frequency(song_artists(songs@)), "Unknown"@),
        r.1@ == first_or(
            by_frequency(crate::album_identifier::albums_named(songs@, songs@.len() as int)),
            "Unknown"@,
        ),
{
    let mut albums: Vec<Vec<char>> = Vec::new();
    let mut artists: Vec<Vec<char>> = Vec::new();
    let mut i: usize = 0;
    assert(texts_of(albums@) =~= crate::album_identifier::albums_named(songs@, 0));
    while i < songs.len()
        invariant
            i <= songs.len(),
            texts_of(albums@) == crate::album_identifier::albums_named(songs@, i as int),
            artists@.len() == i,
            forall|k: int| 0 <= k < i ==> (#[trigger] artists@[k])@ == songs@[k].artist@,
        decreases songs.len() - i,
    {
        let ghost before = texts_of(albums@);
        match &songs[i].album {
            Some(a) => {
                albums.push(chars_of(a.as_str()));
                assert(texts_of(albums@) =~= before.push(a@));
            },
            None => {},
        }
        artists.push(chars_of(songs[i].artist.as_str()));
        i += 1;
    }
    assert(texts_of(artists@) =~= song_artists(songs@));
    let ranked_artists = rank_by_frequency(&artists);
    let ranked_albums = rank_by_frequency(&albums);
    let artist: String = if ranked_artists.len() > 0 {
        assert(texts_of(ranked_artists@)[0] == ranked_artists@[0]@);
        string_of(&ranked_artists[0])
    } else {
        assert(texts_of(ranked_artists@).len() == 0);
        String::from_str("Unknown")
    };
    let album: String = if ranked_albums.len() > 0 {
        assert(texts_of(ranked_albums@)[0] == ranked_albums@[0]@);
        string_of(&ranked_albums[0])
    } else {
        assert(texts_of(ranked_albums@).len() == 0);
        String::from_str("Unknown")
    };
    (artist, album)
}

/// The text searched for: the artist alone where the album is unknown,
/// else artist and album.
pub open spec fn query_for(artist: Seq<char>, album: Seq<char>) -> Seq<char> {
    if album.len() == 0 || album == "Unknown"@ {
        artist
    } else {
        artist + " "@ + album
    }
}

/// Returns the text to search a release by.
pub fn search_query(artist: &str, album: &str) -> (r: String)
    ensures
        r@ == query_for(artist@, album@),
{
    let a = chars_of(album);
    if a.len() == 0 || crate::text::spells(&a, "Unknown") {
        String::from_str(artist)
    } else {
        let mut out = String::from_str(artist);
        out.append(" ");
        out.append(album);
        out
    }
}

/// Score from which a side counts as a perfect match, so that the search
/// stops.
pub const PERFECT_SCORE: u64 = 100_000;

/// Most releases of a master that are looked at.
pub const MAX_VERSIONS: usize = 8;

/// Most results of a search that are looked at.
pub const MAX_CANDIDATES: usize = 5;

/// Some text of `texts` holds `word`.
pub open spec fn any_holds(texts: Seq<String>, word: Seq<char>) -> bool {
    exists|i: int| 0 <= i < texts.len() && contains_text((#[trigger] texts[i])@, word)
}

/// Some text of `texts` is `word`.
pub open spec fn any_is(texts: Seq<String>, word: Seq<char>) -> bool {
    exists|i: int| 0 <= i < texts.len() && (#[trigger] texts[i])@ == word
}

fn some_holds(texts: &Vec<String>, word: &str) -> (r: bool)
    ensures
        r == any_holds(texts@, word@),
{
    let wanted = chars_of(word);
    let mut i: usize = 0;
    while i < texts.len()
        invariant
            i <= texts.len(),
            wanted@ == word@,
            forall|k: int| 0 <= k < i ==> !contains_text((#[trigger] texts@[k])@, word@),
        decreases texts.len() - i,
    {
        let text = chars_of(texts[i].as_str());
        if contains(&text, &wanted) {
            return true;
        }
        i += 1;
    }
    false
}

/// Tells whether the formats that a search reports tell of vinyl: whether
/// one of them holds `Vinyl` or `LP`.
pub fn search_result_is_vinyl(formats: &Vec<String>) -> (r: bool)
    ensures
        r == (any_holds(formats@, "Vinyl"@) || any_holds(formats@, "LP"@)),
{
    some_holds(formats, "Vinyl") || some_holds(formats, "LP")
}

/// Tells whether the major formats of a version tell of vinyl: whether one
/// of them is `Vinyl`.
pub fn version_is_vinyl(major_formats: &Vec<String>) -> (r: bool)
    ensures
        r == any_is(major_formats@, "Vinyl"@),
{
    let mut i: usize = 0;
    while i < major_formats.len()
        invariant
            i <= major_formats.len(),
            forall|k: int| 0 <= k < i ==> (#[trigger] major_formats@[k])@ != "Vinyl"@,
        decreases major_formats.len() - i,
    {
        if crate::text::same_text(major_formats[i].as_str(), "Vinyl") {
            return true;
        }
        i += 1;
    }
    false
}

/// The year that a text writes, in digits with a plus sign before them or
/// without; 0 where it writes none.
pub open spec fn year_of(year: Option<String>) -> u32 {
    match year {
        Some(text) => match parsed_number(text@) {
            Some(n) => if n <= u32::MAX {
                n as u32
            } else {
                0
            },
            None => 0,
        },
        None => 0,
    }
}

fn year_number(year: &Option<String>) -> (r: u32)
    ensures
        r == year_of(*year),
{
    match year {
        Some(text) => {
            let chars = chars_of(text.as_str());
            match parse_number(&chars) {
                Some(n) => if n <= u32::MAX as u64 {
                    n as u32
                } else {
                    0
                },
                None => 0,
            }
        },
        None => 0,
    }
}

/// The years that the texts write.
pub open spec fn year_numbers(years: Seq<Option<String>>) -> Seq<u64> {
    Seq::new(years.len(), |i: int| year_of(years[i]) as u64)
}

/// Picks the versions of a master release to look at: the newest
/// `MAX_VERSIONS`, newest first; versions of one year, and those without a
/// year, stay in their order. Returns their indices.
pub fn versions_to_try(years: &Vec<Option<String>>) -> (r: Vec<usize>)
    ensures
        r@ == largest_first(year_numbers(years@), rounds_for(years@.len(), MAX_VERSIONS as nat)).0,
        r@.len() == rounds_for(years@.len(), MAX_VERSIONS as nat),
        forall|k: int| 0 <= k < r@.len() ==> (#[trigger] r@[k]) < years@.len(),
        forall|a: int, b: int|
            0 <= a < b < r@.len() ==> precedes(
                year_numbers(years@),
                #[trigger] r@[a] as int,
                #[trigger] r@[b] as int,
            ),
{
    let mut numbers: Vec<u64> = Vec::new();
    let mut i: usize = 0;
    while i < years.len()
        invariant
            i <= years.len(),
            numbers@.len() == i,
            forall|k: int| 0 <= k < i ==> numbers@[k] == year_of(#[trigger] years@[k]),
        decreases years.len() - i,
    {
        numbers.push(year_number(&years[i]) as u64);
        i += 1;
    }
    assert(numbers@ =~= year_numbers(years@));
    order_descending(&numbers, MAX_VERSIONS)
}

/// Some release among `results[..upto]` is on vinyl.
pub open spec fn any_on_vinyl(results: Seq<DiscogsSearchResult>, upto: int) -> bool {
    exists|i: int| 0 <= i < upto && (#[trigger] results[i]).is_vinyl
}

/// Whether the release at `i` is looked at: with a wish for vinyl and
/// vinyl among the releases, only the vinyl ones are.
pub open spec fn is_candidate(results: Seq<DiscogsSearchResult>, vinyl_only: bool, i: int) -> bool {
    !(vinyl_only && any_on_vinyl(results, results.len() as int)) || results[i].is_vinyl
}

/// Picks the releases of a search to look at: with a wish for vinyl, the
/// vinyl ones where there are any, else all; of these the first
/// `MAX_CANDIDATES`. Returns their indices, in order.
pub fn candidate_releases(results: &Vec<DiscogsSearchResult>, vinyl_only: bool) -> (r: Vec<usize>)
    ensures
        r@.len() <= MAX_CANDIDATES,
        forall|k: int| 0 <= k < r@.len() ==> (#[trigger] r@[k]) < results@.len() && is_candidate(
            results@,
            vinyl_only,
            r@[k] as int,
        ),
        forall|a: int, b: int| 0 <= a < b < r@.len() ==> #[trigger] r@[a] < #[trigger] r@[b],
        forall|i: int|
            0 <= i < results@.len() && is_candidate(results@, vinyl_only, i) ==> r@.contains(
                i as usize,
            ) || (r@.len() == MAX_CANDIDATES && forall|k: int|
                0 <= k < r@.len() ==> (#[trigger] r@[k]) < i),
{
    let mut vinyl: bool = false;
    let mut j: usize = 0;
    while j < results.len()
        invariant
            j <= results.len(),
            vinyl == any_on_vinyl(results@, j as int),
        decreases results.len() - j,
    {
        if results[j].is_vinyl {
            vinyl = true;
        }
        j += 1;
    }
    let only: bool = vinyl_only && vinyl;
    let mut out: Vec<usize> = Vec::new();
    let mut i: usize = 0;
    while i < results.len() && out.len() < MAX_CANDIDATES
        invariant
            i <= results.len(),
            out@.len() <= MAX_CANDIDATES,
            only == (vinyl_only && any_on_vinyl(results@, results@.len() as int)),
            forall|k: int| 0 <= k < out@.len() ==> (#[trigger] out@[k]) < i && is_candidate(
                results@,
                vinyl_only,
                out@[k] as int,
            ),
            forall|a: int, b: int| 0 <= a < b < out@.len() ==> #[trigger] out@[a] < #[trigger] out@[b],
            forall|m: int|
                0 <= m < i && is_candidate(results@, vinyl_only, m) ==> out@.contains(m as usize),
        decreases results.len() - i,
    {
        let ghost before = out@;
        if !only || results[i].is_vinyl {
            out.push(i);
            assert(out@[out@.len() - 1] == i);
        }
        proof {
            assert forall|m: int|
                0 <= m < i + 1 && is_candidate(results@, vinyl_only, m) implies out@.contains(
                m as usize,
            ) by {
                if m < i {
                    assert(before.contains(m as usize));
                    let k = choose|k: int| 0 <= k < before.len() && before[k] == m as usize;
                    assert(out@[k] == m as usize);
                }
            }
        }
        i += 1;
    }
    out
}

/// The best release so far after one more was looked at: the new one where
/// it has a side and scores above the best, else the best as it was.
pub open spec fn better_of(best: Option<(usize, u64)>, index: usize, score: Option<u64>) -> Option<
    (usize, u64),
> {
    match score {
        Some(s) => match best {
            Some(b) => if s > b.1 {
                Some((index, s))
            } else {
                best
            },
            None => Some((index, s)),
        },
        None => best,
    }
}

/// Whether the search ends after a release with this score: where it may
/// end early and the score is perfect.
pub open spec fn ends_search(score: Option<u64>, stop_at_perfect: bool) -> bool {
    stop_at_perfect && score is Some && score->0 >= PERFECT_SCORE
}

/// Takes note of the score of the best side of one more release, nothing
/// where it has no side that fits. Returns the best release so far, with
/// its score, and whether the search ends here.
pub fn consider_release(
    best: Option<(usize, u64)>,
    index: usize,
    score: Option<u64>,
    stop_at_perfect: bool,
) -> (r: (Option<(usize, u64)>, bool))
    ensures
        r.0 == better_of(best, index, score),
        r.1 == ends_search(score, stop_at_perfect),
{
    match score {
        Some(s) => {
            let stop: bool = stop_at_perfect && s >= PERFECT_SCORE;
            let better: bool = match best {
                Some(b) => s > b.1,
                None => true,
            };
            if better {
                (Some((index, s)), stop)
            } else {
                (best, stop)
            }
        },
        None => (best, false),
    }
}

} // verus!
