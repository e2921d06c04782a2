//! CUE sheets and analysis reports for a recording.

use crate::text::{
    append, append_str, chars_of, decimal, digits_of, has_prefix, same_chars, slice_of, starts_with,
    string_of, two_digits, two_digits_of,
};
use vstd::prelude::*;

verus! {

/// A local minimum of the smoothed level curve: a candidate song boundary.
///
/// Positions and widths are in microseconds, levels in hundredths of a
/// decibel.
#[derive(Clone, Copy, Debug, PartialEq, Eq, Structural)]
pub struct Valley {
    /// Position of the minimum from the start of the file.
    pub position_us: u64,
    /// Level at the minimum.
    pub depth: i16,
    /// How far the minimum lies below the local reference level.
    pub prominence: i32,
    /// Mean level of the audio before the valley.
    pub left_level: i16,
    /// Mean level of the audio after the valley.
    pub right_level: i16,
    /// Extent of the dip below half its prominence.
    pub width_us: u64,
    /// Ranking of the valley among the candidates of one file.
    pub score: i64,
}

/// Frames in one second of a CUE index.
pub const FRAMES_PER_SECOND: u64 = 75;

/// Index of the last `c` in `s[..upto]`, or -1.
pub open spec fn last_index_of(s: Seq<char>, c: char, upto: int) -> int
    decreases upto,
{
    if upto <= 0 || upto > s.len() {
        -1
    } else if s[upto - 1] == c {
        upto - 1
    } else {
        last_index_of(s, c, upto - 1)
    }
}

/// The name of the file that `path` leads to: what follows the last slash;
/// `unknown.wav` where nothing follows it.
pub open spec fn base_name(path: Seq<char>) -> Seq<char> {
    let name = path.subrange(last_index_of(path, '/', path.len() as int) + 1, path.len() as int);
    if name.len() == 0 {
        "unknown.wav"@
    } else {
        name
    }
}

/// `path` without the extension of its file name: without the last dot of
/// the name and what follows it, unless the name starts with that dot.
pub open spec fn without_extension(path: Seq<char>) -> Seq<char> {
    let slash = last_index_of(path, '/', path.len() as int);
    let dot = last_index_of(path, '.', path.len() as int);
    if dot > slash + 1 {
        path.subrange(0, dot)
    } else {
        path
    }
}

pub(crate) fn rfind_char(s: &Vec<char>, c: char) -> (r: Option<usize>)
    ensures
        match r {
            Some(i) => i < s.len() && i == last_index_of(s@, c, s@.len() as int),
            None => last_index_of(s@, c, s@.len() as int) == -1,
        },
{
    let mut upto: usize = s.len();
    while upto > 0
        invariant
            upto <= s.len(),
            last_index_of(s@, c, s@.len() as int) == last_index_of(s@, c, upto as int),
        decreases upto,
    {
        if s[upto - 1] == c {
            return Some(upto - 1);
        }
        upto -= 1;
    }
    None
}

fn base_name_of(path: &Vec<char>) -> (r: Vec<char>)
    ensures
        r@ == base_name(path@),
{
    let from: usize = match rfind_char(path, '/') {
        Some(i) => i + 1,
        None => 0,
    };
    let name = slice_of(path, from, path.len());
    if name.len() == 0 {
        chars_of("unknown.wav")
    } else {
        name
    }
}

fn strip_extension(path: &Vec<char>) -> (r: Vec<char>)
    ensures
        r@ == without_extension(path@),
{
    let after_slash: usize = match rfind_char(path, '/') {
        Some(i) => i + 1,
        None => 0,
    };
    match rfind_char(path, '.') {
        Some(dot) => {
            if dot > after_slash {
                slice_of(path, 0, dot)
            } else {
                let copy = slice_of(path, 0, path.len());
                assert(copy@ =~= path@);
                copy
            }
        },
        None => {
            let copy = slice_of(path, 0, path.len());
            assert(copy@ =~= path@);
            copy
        },
    }
}

/// The ending of the sidecar files of a recording: `.cue` where the
/// metadata came from a matched release, `.guess.cue` where it came from
/// detection alone.
pub open spec fn cue_ending(has_match: bool) -> Seq<char> {
    if has_match {
        ".cue"@
    } else {
        ".guess.cue"@
    }
}

/// Path of the CUE sheet of a recording.
pub open spec fn cue_path(wav_file: Seq<char>, has_match: bool) -> Seq<char> {
    without_extension(wav_file) + cue_ending(has_match)
}

/// Path of the analysis report of a recording.
pub open spec fn info_path(wav_file: Seq<char>, has_match: bool) -> Seq<char> {
    without_extension(wav_file) + cue_ending(has_match) + ".txt"@
}

/// Returns the path of the CUE sheet of a recording.
pub fn cue_file_path(wav_file: &str, has_match: bool) -> (r: String)
    ensures
        r@ == cue_path(wav_file@, has_match),
{
    let path = chars_of(wav_file);
    let mut out = strip_extension(&path);
    if has_match {
        append_str(&mut out, ".cue");
    } else {
        append_str(&mut out, ".guess.cue");
    }
    string_of(&out)
}

/// Returns the path of the analysis report of a recording.
pub fn info_file_path(wav_file: &str, has_match: bool) -> (r: String)
    ensures
        r@ == info_path(wav_file@, has_match),
{
    let path = chars_of(wav_file);
    let mut out = strip_extension(&path);
    if has_match {
        append_str(&mut out, ".cue");
    } else {
        append_str(&mut out, ".guess.cue");
    }
    append_str(&mut out, ".txt");
    string_of(&out)
}

/// `name` is one of `names`.
pub open spec fn is_among(names: Seq<String>, name: Seq<char>) -> bool {
    exists|i: int| 0 <= i < names.len() && (#[trigger] names[i])@ == name
}

fn among(names: &Vec<String>, name: &Vec<char>) -> (r: bool)
    ensures
        r == is_among(names@, name@),
{
    let mut i: usize = 0;
    while i < names.len()
        invariant
            i <= names.len(),
            forall|j: int| 0 <= j < i ==> (#[trigger] names@[j])@ != name@,
        decreases names.len() - i,
    {
        let other = chars_of(names[i].as_str());
        if same_chars(&other, name) {
            return true;
        }
        i += 1;
    }
    false
}

/// Tells whether a recording has a CUE sheet already: whether either of
/// its two possible paths is among the `existing` ones.
pub fn has_cue_file(wav_file: &str, existing: &Vec<String>) -> (r: bool)
    ensures
        r == (is_among(existing@, cue_path(wav_file@, true)) || is_among(
            existing@,
            cue_path(wav_file@, false),
        )),
{
    let matched = chars_of(cue_file_path(wav_file, true).as_str());
    let guessed = chars_of(cue_file_path(wav_file, false).as_str());
    among(existing, &matched) || among(existing, &guessed)
}

/// A position as a CUE index: minutes, seconds and frames of a 75th of a
/// second, each with at least two digits. Part of a frame is cut off.
pub open spec fn index_text(position_us: nat) -> Seq<char> {
    two_digits_of(position_us / 60_000_000) + ":"@ + two_digits_of(position_us / 1_000_000 % 60)
        + ":"@ + two_digits_of(position_us % 1_000_000 * FRAMES_PER_SECOND as nat / 1_000_000)
}

fn push_index(out: &mut Vec<char>, position_us: u64)
    ensures
        final(out)@ == old(out)@ + index_text(position_us as nat),
{
    let minutes = two_digits(position_us / 60_000_000);
    let seconds = two_digits(position_us / 1_000_000 % 60);
    let frames = two_digits(position_us % 1_000_000 * FRAMES_PER_SECOND / 1_000_000);
    let mut text: Vec<char> = Vec::new();
    append(&mut text, &minutes);
    append_str(&mut text, ":");
    append(&mut text, &seconds);
    append_str(&mut text, ":");
    append(&mut text, &frames);
    assert(text@ =~= index_text(position_us as nat));
    append(out, &text);
}

/// The name of track `number` as its sheet shows it: the given name
/// without the prefix `#<number> `, or `Track <number>` where none is
/// given.
pub open spec fn shown_name(names: Seq<String>, number: nat) -> Seq<char> {
    let given = if number - 1 < names.len() {
        names[number - 1]@
    } else {
        "Track "@ + digits_of(number)
    };
    let prefix = "#"@ + digits_of(number) + " "@;
    if has_prefix(given, prefix) {
        given.subrange(prefix.len() as int, given.len() as int)
    } else {
        given
    }
}

fn track_name(names: &Vec<String>, number: usize) -> (r: Vec<char>)
    requires
        number >= 1,
    ensures
        r@ == shown_name(names@, number as nat),
{
    let digits = decimal(number as u64);
    let given: Vec<char> = if number - 1 < names.len() {
        chars_of(names[number - 1].as_str())
    } else {
        let mut fallback = chars_of("Track ");
        append(&mut fallback, &digits);
        fallback
    };
    let mut prefix = chars_of("#");
    append(&mut prefix, &digits);
    append_str(&mut prefix, " ");
    if starts_with(&given, &prefix) {
        slice_of(&given, prefix.len(), given.len())
    } else {
        given
    }
}

/// The head of a sheet: generator, performer, title and file.
pub open spec fn cue_head(wav_file: Seq<char>, artist: Seq<char>, title: Seq<char>) -> Seq<char> {
    "REM GENERATOR \"HiFiBerry AutoRec boundary_finder\"\n"@ + "PERFORMER \""@ + artist + "\"\n"@
        + "TITLE \""@ + title + "\"\n"@ + "FILE \""@ + base_name(wav_file) + "\" WAVE\n"@
}

/// `sheet` with the entry of track `number`, which starts at
/// `position_us`.
pub open spec fn with_track(
    sheet: Seq<char>,
    names: Seq<String>,
    artist: Seq<char>,
    number: nat,
    position_us: nat,
) -> Seq<char> {
    sheet + "  TRACK "@ + two_digits_of(number) + " AUDIO\n"@ + "    TITLE \""@ + shown_name(
        names,
        number,
    ) + "\"\n"@ + "    PERFORMER \""@ + artist + "\"\n"@ + "    INDEX 01 "@ + index_text(position_us)
        + "\n"@
}

/// The sheet with its head, the first track at the groove-in, and the
/// tracks that start at `boundaries[..upto]`.
pub open spec fn cue_sheet(
    wav_file: Seq<char>,
    artist: Seq<char>,
    title: Seq<char>,
    names: Seq<String>,
    groove_in_us: nat,
    boundaries: Seq<Valley>,
    upto: int,
) -> Seq<char>
    decreases upto,
{
    if upto <= 0 {
        with_track(cue_head(wav_file, artist, title), names, artist, 1, groove_in_us)
    } else {
        with_track(
            cue_sheet(wav_file, artist, title, names, groove_in_us, boundaries, upto - 1),
            names,
            artist,
            (upto + 1) as nat,
            boundaries[upto - 1].position_us as nat,
        )
    }
}

fn push_track(
    out: &mut Vec<char>,
    names: &Vec<String>,
    artist: &Vec<char>,
    number: usize,
    position_us: u64,
)
    requires
        number >= 1,
    ensures
        final(out)@ == with_track(
            old(out)@,
            names@,
            artist@,
            number as nat,
            position_us as nat,
        ),
{
    append_str(out, "  TRACK ");
    let digits = two_digits(number as u64);
    append(out, &digits);
    append_str(out, " AUDIO\n");
    append_str(out, "    TITLE \"");
    let name = track_name(names, number);
    append(out, &name);
    append_str(out, "\"\n");
    append_str(out, "    PERFORMER \"");
    append(out, artist);
    append_str(out, "\"\n");
    append_str(out, "    INDEX 01 ");
    push_index(out, position_us);
    append_str(out, "\n");
}

/// Writes the CUE sheet of a recording: the head, then one track for the
/// groove-in and one for every boundary. Track 1 starts at the groove-in,
/// every further track at its boundary.
pub fn generate_cue_file(
    wav_file: &str,
    artist: &str,
    title: &str,
    track_names: &Vec<String>,
    groove_in_us: u64,
    boundaries: &Vec<Valley>,
) -> (r: String)
    requires
        boundaries@.len() < usize::MAX,
    ensures
        r@ == cue_sheet(
            wav_file@,
            artist@,
            title@,
            track_names@,
            groove_in_us as nat,
            boundaries@,
            boundaries@.len() as int,
        ),
{
    let performer = chars_of(artist);
    let path = chars_of(wav_file);
    let name = base_name_of(&path);
    let mut out: Vec<char> = Vec::new();
    append_str(&mut out, "REM GENERATOR \"HiFiBerry AutoRec boundary_finder\"\n");
    assert(out@ =~= "REM GENERATOR \"HiFiBerry AutoRec boundary_finder\"\n"@);
    append_str(&mut out, "PERFORMER \"");
    append(&mut out, &performer);
    append_str(&mut out, "\"\n");
    append_str(&mut out, "TITLE \"");
    append_str(&mut out, title);
    append_str(&mut out, "\"\n");
    append_str(&mut out, "FILE \"");
    append(&mut out, &name);
    append_str(&mut out, "\" WAVE\n");
    push_track(&mut out, track_names, &performer, 1, groove_in_us);
    let mut i: usize = 0;
    while i < boundaries.len()
        invariant
            i <= boundaries.len() < usize::MAX,
            performer@ == artist@,
            out@ == cue_sheet(
                wav_file@,
                artist@,
                title@,
                track_names@,
                groove_in_us as nat,
                boundaries@,
                i as int,
            ),
        decreases boundaries.len() - i,
    {
        push_track(&mut out, track_names, &performer, i + 2, boundaries[i].position_us);
        i += 1;
    }
    string_of(&out)
}

/// A time in seconds with two decimals, rounded to the nearest hundredth;
/// a negative time carries a minus sign.
pub open spec fn seconds_text(value_us: int) -> Seq<char> {
    let magnitude = if value_us < 0 {
        -value_us
    } else {
        value_us
    };
    let hundredths = ((magnitude + 5_000) / 10_000) as nat;
    let number = digits_of(hundredths / 100) + "."@ + two_digits_of(hundredths % 100);
    if value_us < 0 {
        "-"@ + number
    } else {
        number
    }
}

/// A time in seconds with two decimals and always a sign.
pub open spec fn signed_seconds_text(value_us: int) -> Seq<char> {
    if value_us < 0 {
        seconds_text(value_us)
    } else {
        "+"@ + seconds_text(value_us)
    }
}

fn seconds(value_us: i128) -> (r: Vec<char>)
    requires
        -0x4_0000_0000_0000_0000 <= value_us <= 0x4_0000_0000_0000_0000,
    ensures
        r@ == seconds_text(value_us as int),
{
    let magnitude: u128 = if value_us < 0 { (-value_us) as u128 } else { value_us as u128 };
    let hundredths: u64 = ((magnitude + 5_000) / 10_000) as u64;
    let mut number = decimal(hundredths / 100);
    append_str(&mut number, ".");
    let fraction = two_digits(hundredths % 100);
    append(&mut number, &fraction);
    if value_us < 0 {
        let mut out = chars_of("-");
        append(&mut out, &number);
        out
    } else {
        number
    }
}

fn signed_seconds(value_us: i128) -> (r: Vec<char>)
    requires
        -0x4_0000_0000_0000_0000 <= value_us <= 0x4_0000_0000_0000_0000,
    ensures
        r@ == signed_seconds_text(value_us as int),
{
    let number = seconds(value_us);
    if value_us < 0 {
        number
    } else {
        let mut out = chars_of("+");
        append(&mut out, &number);
        out
    }
}

/// The name of the file that `path` leads to, or the path itself where
/// nothing follows its last slash.
pub open spec fn file_label(path: Seq<char>) -> Seq<char> {
    let name = path.subrange(last_index_of(path, '/', path.len() as int) + 1, path.len() as int);
    if name.len() == 0 {
        path
    } else {
        name
    }
}

/// The name of track `number` in a report, `Unknown` where none is given.
pub open spec fn reported_name(names: Seq<String>, number: nat) -> Seq<char> {
    if number - 1 < names.len() {
        names[number - 1]@
    } else {
        "Unknown"@
    }
}

/// The head of a report: file, groove times, the matched release where
/// there is one, and the detection method.
pub open spec fn info_head(
    wav_file: Seq<char>,
    groove_in_us: int,
    groove_out_us: int,
    guided: bool,
    release: Option<Seq<char>>,
) -> Seq<char> {
    let timing = "Vinyl Recording Analysis\n========================\n\nFile: "@ + file_label(
        wav_file,
    ) + "\n\nGroove Timing:\n--------------\nLead-in (groove-in):  "@ + seconds_text(groove_in_us)
        + "s\nLead-out (groove-out): "@ + seconds_text(groove_out_us) + "s\n\n"@;
    let matched = match release {
        Some(text) => timing + "MusicBrainz Match:\n------------------\n"@ + text + "\n\n"@,
        None => timing,
    };
    matched + "Detection Method: "@ + (if guided {
        "Guided (MusicBrainz-based)"@
    } else {
        "Autonomous (valley-based)"@
    }) + "\n\n"@
}

/// `report` with the name and the times of track `number`, which runs
/// from `start_us` to `end_us`.
pub open spec fn with_times(
    report: Seq<char>,
    names: Seq<String>,
    number: nat,
    start_us: int,
    end_us: int,
) -> Seq<char> {
    report + "Track "@ + digits_of(number) + ": "@ + reported_name(names, number) + "\n  Start: "@
        + seconds_text(start_us) + "s\n  End:   "@ + seconds_text(end_us) + "s\n  Duration: "@
        + seconds_text(end_us - start_us) + "s\n"@
}

/// `entry` with the start and the length that the release expects of the
/// track, and how far the track is off.
pub open spec fn with_comparison(
    entry: Seq<char>,
    expected: (u64, u64),
    groove_in_us: int,
    start_us: int,
    end_us: int,
) -> Seq<char> {
    entry + "  Expected start: "@ + seconds_text(expected.0 as int) + "s (offset: "@
        + signed_seconds_text(start_us - groove_in_us - expected.0) + "s)\n  Expected length: "@
        + seconds_text(expected.1 as int) + "s (diff: "@ + signed_seconds_text(
        end_us - start_us - expected.1,
    ) + "s)\n"@
}

/// `report` with the entry of track `number`, which runs from `start_us`
/// to `end_us`; where the release tells what to expect of the track, the
/// entry compares.
pub open spec fn with_entry(
    report: Seq<char>,
    names: Seq<String>,
    expected: Option<Seq<(u64, u64)>>,
    groove_in_us: int,
    number: nat,
    start_us: int,
    end_us: int,
) -> Seq<char> {
    let entry = with_times(report, names, number, start_us, end_us);
    match expected {
        Some(list) => if number - 1 < list.len() {
            with_comparison(entry, list[number - 1], groove_in_us, start_us, end_us)
        } else {
            entry
        },
        None => entry,
    }
}

/// Start of track `number`: the groove-in for the first, else the boundary
/// before the track.
pub open spec fn track_start(groove_in_us: int, boundaries: Seq<Valley>, number: nat) -> int {
    if number <= 1 {
        groove_in_us
    } else {
        boundaries[number - 2].position_us as int
    }
}

/// The report with its list of tracks up to track `upto`, each followed by
/// an empty line.
pub open spec fn info_tracks(
    head: Seq<char>,
    names: Seq<String>,
    expected: Option<Seq<(u64, u64)>>,
    groove_in_us: int,
    boundaries: Seq<Valley>,
    upto: int,
) -> Seq<char>
    decreases upto,
{
    if upto <= 0 {
        head + "Track Boundaries:\n-----------------\n"@
    } else {
        with_entry(
            info_tracks(head, names, expected, groove_in_us, boundaries, upto - 1),
            names,
            expected,
            groove_in_us,
            upto as nat,
            track_start(groove_in_us, boundaries, upto as nat),
            boundaries[upto - 1].position_us as int,
        ) + "\n"@
    }
}

/// The report of an analysis: its head and, where there are boundaries,
/// one entry per track, the last of which ends at the groove-out.
pub open spec fn info_report(
    wav_file: Seq<char>,
    groove_in_us: int,
    groove_out_us: int,
    boundaries: Seq<Valley>,
    names: Seq<String>,
    expected: Option<Seq<(u64, u64)>>,
    release: Option<Seq<char>>,
) -> Seq<char> {
    let head = info_head(wav_file, groove_in_us, groove_out_us, expected is Some, release);
    if boundaries.len() == 0 {
        head
    } else {
        with_entry(
            info_tracks(head, names, expected, groove_in_us, boundaries, boundaries.len() as int),
            names,
            expected,
            groove_in_us,
            boundaries.len() + 1,
            track_start(groove_in_us, boundaries, boundaries.len() + 1),
            groove_out_us,
        )
    }
}

/// What a release tells to expect of its tracks, as a sequence.
pub open spec fn expected_of(expected: Option<&Vec<(u64, u64)>>) -> Option<Seq<(u64, u64)>> {
    match expected {
        Some(list) => Some(list@),
        None => None,
    }
}

/// The text of an optional string.
pub open spec fn text_of(s: Option<&str>) -> Option<Seq<char>> {
    match s {
        Some(t) => Some(t@),
        None => None,
    }
}

fn push_times(out: &mut Vec<char>, names: &Vec<String>, number: usize, start_us: u64, end_us: u64)
    requires
        number >= 1,
    ensures
        final(out)@ == with_times(
            old(out)@,
            names@,
            number as nat,
            start_us as int,
            end_us as int,
        ),
{
    append_str(out, "Track ");
    let digits = decimal(number as u64);
    append(out, &digits);
    append_str(out, ": ");
    if number - 1 < names.len() {
        append_str(out, names[number - 1].as_str());
    } else {
        append_str(out, "Unknown");
    }
    append_str(out, "\n  Start: ");
    let start = seconds(start_us as i128);
    append(out, &start);
    append_str(out, "s\n  End:   ");
    let end = seconds(end_us as i128);
    append(out, &end);
    append_str(out, "s\n  Duration: ");
    let duration = seconds(end_us as i128 - start_us as i128);
    append(out, &duration);
    append_str(out, "s\n");
}

fn push_comparison(
    out: &mut Vec<char>,
    expected: (u64, u64),
    groove_in_us: u64,
    start_us: u64,
    end_us: u64,
)
    ensures
        final(out)@ == with_comparison(
            old(out)@,
            expected,
            groove_in_us as int,
            start_us as int,
            end_us as int,
        ),
{
    append_str(out, "  Expected start: ");
    let a = seconds(expected.0 as i128);
    append(out, &a);
    append_str(out, "s (offset: ");
    let b = signed_seconds(start_us as i128 - groove_in_us as i128 - expected.0 as i128);
    append(out, &b);
    append_str(out, "s)\n  Expected length: ");
    let c = seconds(expected.1 as i128);
    append(out, &c);
    append_str(out, "s (diff: ");
    let d = signed_seconds(end_us as i128 - start_us as i128 - expected.1 as i128);
    append(out, &d);
    append_str(out, "s)\n");
}

fn push_entry(
    out: &mut Vec<char>,
    names: &Vec<String>,
    expected: Option<&Vec<(u64, u64)>>,
    groove_in_us: u64,
    number: usize,
    start_us: u64,
    end_us: u64,
)
    requires
        number >= 1,
    ensures
        final(out)@ == with_entry(
            old(out)@,
            names@,
            expected_of(expected),
            groove_in_us as int,
            number as nat,
            start_us as int,
            end_us as int,
        ),
{
    push_times(out, names, number, start_us, end_us);
    match expected {
        Some(list) => {
            if number - 1 < list.len() {
                push_comparison(out, list[number - 1], groove_in_us, start_us, end_us);
            }
        },
        None => {},
    }
}

/// Writes the report of an analysis: the file, the groove times, the
/// matched release, the detection method, guided where `expected_tracks`
/// are given, and for every track its start, end and duration, with the
/// expected start and length and the offsets from them where known.
pub fn generate_info_file(
    wav_file: &str,
    groove_in_us: u64,
    groove_out_us: u64,
    boundaries: &Vec<Valley>,
    track_names: &Vec<String>,
    expected_tracks: Option<&Vec<(u64, u64)>>,
    mb_info: Option<&str>,
) -> (r: String)
    requires
        boundaries@.len() < usize::MAX,
    ensures
        r@ == info_report(
            wav_file@,
            groove_in_us as int,
            groove_out_us as int,
            boundaries@,
            track_names@,
            expected_of(expected_tracks),
            text_of(mb_info),
        ),
{
    let path = chars_of(wav_file);
    let from: usize = match rfind_char(&path, '/') {
        Some(i) => i + 1,
        None => 0,
    };
    let name = slice_of(&path, from, path.len());
    let mut out: Vec<char> = Vec::new();
    append_str(&mut out, "Vinyl Recording Analysis\n========================\n\nFile: ");
    assert(out@ =~= "Vinyl Recording Analysis\n========================\n\nFile: "@);
    if name.len() == 0 {
        append(&mut out, &path);
    } else {
        append(&mut out, &name);
    }
    append_str(&mut out, "\n\nGroove Timing:\n--------------\nLead-in (groove-in):  ");
    let lead_in = seconds(groove_in_us as i128);
    append(&mut out, &lead_in);
    append_str(&mut out, "s\nLead-out (groove-out): ");
    let lead_out = seconds(groove_out_us as i128);
    append(&mut out, &lead_out);
    append_str(&mut out, "s\n\n");
    match mb_info {
        Some(text) => {
            append_str(&mut out, "MusicBrainz Match:\n------------------\n");
            append_str(&mut out, text);
            append_str(&mut out, "\n\n");
        },
        None => {},
    }
    append_str(&mut out, "Detection Method: ");
    if expected_tracks.is_some() {
        append_str(&mut out, "Guided (MusicBrainz-based)");
    } else {
        append_str(&mut out, "Autonomous (valley-based)");
    }
    append_str(&mut out, "\n\n");
    let ghost head = out@;
    assert(head == info_head(
        wav_file@,
        groove_in_us as int,
        groove_out_us as int,
        expected_of(expected_tracks) is Some,
        text_of(mb_info),
    ));
    if boundaries.len() == 0 {
        return string_of(&out);
    }
    append_str(&mut out, "Track Boundaries:\n-----------------\n");
    let mut current: u64 = groove_in_us;
    let mut i: usize = 0;
    while i < boundaries.len()
        invariant
            i <= boundaries.len() < usize::MAX,
            current == track_start(groove_in_us as int, boundaries@, (i + 1) as nat),
            out@ == info_tracks(
                head,
                track_names@,
                expected_of(expected_tracks),
                groove_in_us as int,
                boundaries@,
                i as int,
            ),
        decreases boundaries.len() - i,
    {
        push_entry(
            &mut out,
            track_names,
            expected_tracks,
            groove_in_us,
            i + 1,
            current,
            boundaries[i].position_us,
        );
        append_str(&mut out, "\n");
        current = boundaries[i].position_us;
        i += 1;
    }
    push_entry(
        &mut out,
        track_names,
        expected_tracks,
        groove_in_us,
        boundaries.len() + 1,
        current,
        groove_out_us,
    );
    string_of(&out)
}

} // verus!
