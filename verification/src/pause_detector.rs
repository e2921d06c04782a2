//! Events of the adaptive pause detector.

use vstd::prelude::*;

verus! {

/// What the adaptive detector reports.
#[derive(Clone, Copy, Debug, PartialEq, Eq, Structural)]
pub enum PauseEvent {
    /// A pause has ended: the next song begins.
    SongBoundary,
}

/// Shortest average song, in seconds, below which the detector counts as
/// too sensitive.
pub const MIN_SONG_LENGTH_SECS: u32 = 120;

/// Time without a pause, in seconds, after which the detector becomes
/// more sensitive.
pub const PAUSE_TIMEOUT_SECS: u32 = 360;

/// Sum of `durations[..upto]`.
pub open spec fn sum_of(durations: Seq<u64>, upto: int) -> int
    decreases upto,
{
    if upto <= 0 {
        0
    } else {
        sum_of(durations, upto - 1) + durations[upto - 1]
    }
}

/// Fewest songs from which the detector adapts.
pub const MIN_SONGS_TO_ADAPT: usize = 3;

/// Step by which the shortest pause grows, in milliseconds.
pub const PAUSE_STEP_MS: u32 = 100;

/// Longest shortest pause, in milliseconds.
pub const MAX_PAUSE_MS: u32 = 1500;

/// Step by which the threshold rises, in hundredths of a decibel.
pub const THRESHOLD_STEP: i16 = 200;

/// Highest threshold that the detector rises to.
pub const MAX_THRESHOLD: i16 = -3000;

/// Whether songs of these durations, in milliseconds, show that the
/// detector is too sensitive: there are at least three, and they last less
/// than two minutes on average, in whole seconds.
pub open spec fn too_sensitive(durations: Seq<u64>) -> bool {
    durations.len() >= MIN_SONGS_TO_ADAPT && sum_of(durations, durations.len() as int) / 1000
        / (durations.len() as int) < MIN_SONG_LENGTH_SECS
}

/// Tells whether the songs heard so far show that pauses are found too
/// easily.
pub fn is_too_sensitive(durations_ms: &Vec<u64>) -> (r: bool)
    ensures
        r == too_sensitive(durations_ms@),
{
    if durations_ms.len() < MIN_SONGS_TO_ADAPT {
        return false;
    }
    let mut sum: u128 = 0;
    let mut i: usize = 0;
    while i < durations_ms.len()
        invariant
            i <= durations_ms.len(),
            sum == sum_of(durations_ms@, i as int),
            sum <= i * 0xffff_ffff_ffff_ffff,
        decreases durations_ms.len() - i,
    {
        assert((i + 1) * 0xffff_ffff_ffff_ffff == i * 0xffff_ffff_ffff_ffff + 0xffff_ffff_ffff_ffff)
            by (nonlinear_arith);
        assert(i * 0xffff_ffff_ffff_ffff <= 0xffff_ffff_ffff_ffff * 0xffff_ffff_ffff_ffff)
            by (nonlinear_arith)
            requires
                0 <= i <= 0xffff_ffff_ffff_ffff,
        ;
        sum = sum + durations_ms[i] as u128;
        i += 1;
    }
    sum / 1000 / (durations_ms.len() as u128) < MIN_SONG_LENGTH_SECS as u128
}

/// The shortest pause after one step towards less sensitivity: a tenth of
/// a second longer, at most a second and a half.
pub fn longer_pause(pause_duration_ms: u32) -> (r: u32)
    ensures
        r == if pause_duration_ms + PAUSE_STEP_MS >= MAX_PAUSE_MS {
            MAX_PAUSE_MS
        } else {
            (pause_duration_ms + PAUSE_STEP_MS) as u32
        },
{
    if pause_duration_ms >= MAX_PAUSE_MS - PAUSE_STEP_MS {
        MAX_PAUSE_MS
    } else {
        pause_duration_ms + PAUSE_STEP_MS
    }
}

/// The threshold after one step towards more sensitivity: two decibels
/// higher, at most -30 dB.
pub fn higher_threshold(threshold: i16) -> (r: i16)
    ensures
        r == if threshold + THRESHOLD_STEP >= MAX_THRESHOLD {
            MAX_THRESHOLD
        } else {
            (threshold + THRESHOLD_STEP) as i16
        },
{
    if threshold >= MAX_THRESHOLD - THRESHOLD_STEP {
        MAX_THRESHOLD
    } else {
        threshold + THRESHOLD_STEP
    }
}

} // verus!
