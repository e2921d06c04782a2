//! Level statistics over an RMS curve.
//!
//! A curve is a sequence of levels sampled at a fixed hop. Levels are signed
//! hundredths of a decibel relative to full scale; linear amplitudes are
//! unsigned fixed-point numbers. Means are rounded down.

use crate::numeric::{sort_levels, sorted_levels};
use vstd::arithmetic::div_mod::{lemma_div_is_ordered, lemma_hoist_over_denominator};
use vstd::prelude::*;

verus! {

/// Level reported for an empty or silent window, in hundredths of a decibel.
pub const SILENCE_LEVEL: i16 = -8000;

/// Sum of the levels `s[from..to]`.
pub open spec fn level_sum(s: Seq<i16>, from: int, to: int) -> int
    decreases to - from,
{
    if from >= to {
        0
    } else {
        level_sum(s, from, to - 1) + s[to - 1]
    }
}

/// Mean of the levels `s[from..to]`, rounded down.
pub open spec fn level_mean(s: Seq<i16>, from: int, to: int) -> int {
    level_sum(s, from, to) / (to - from)
}

/// The sum of a window lies between the extremes that its length allows.
pub proof fn lemma_level_sum_bounds(s: Seq<i16>, from: int, to: int)
    requires
        0 <= from <= to <= s.len(),
    ensures
        -32768 * (to - from) <= level_sum(s, from, to) <= 32767 * (to - from),
    decreases to - from,
{
    if from < to {
        lemma_level_sum_bounds(s, from, to - 1);
    }
}

/// The mean of a non-empty window is itself a level.
pub proof fn lemma_level_mean_bounds(s: Seq<i16>, from: int, to: int)
    requires
        0 <= from < to <= s.len(),
    ensures
        -32768 <= level_mean(s, from, to) <= 32767,
{
    let n = to - from;
    let sum = level_sum(s, from, to);
    lemma_level_sum_bounds(s, from, to);
    lemma_div_is_ordered(-32768 * n, sum, n);
    lemma_div_is_ordered(sum, 32767 * n, n);
    assert((-32768 * n) / n == -32768) by (nonlinear_arith)
        requires
            n > 0,
    ;
    assert((32767 * n) / n == 32767) by (nonlinear_arith)
        requires
            n > 0,
    ;
}

/// Mean of the levels `v[from..to]`, rounded down.
pub fn mean_level(v: &Vec<i16>, from: usize, to: usize) -> (r: i16)
    requires
        from < to <= v.len(),
    ensures
        r == level_mean(v@, from as int, to as int),
{
    let mut shifted: u128 = 0;
    let mut k: usize = from;
    while k < to
        invariant
            from <= k <= to <= v.len(),
            shifted == level_sum(v@, from as int, k as int) + 32768 * (k - from),
            shifted <= 65535 * (k - from),
        decreases to - k,
    {
        let lifted: u128 = (v[k] as i32 + 32768) as u128;
        shifted = shifted + lifted;
        k += 1;
    }
    let n: u128 = (to - from) as u128;
    let q: u128 = shifted / n;
    proof {
        let sum = level_sum(v@, from as int, to as int);
        lemma_hoist_over_denominator(sum, 32768, n as nat);
        assert(sum + 32768 * (n as int) == shifted);
        lemma_level_mean_bounds(v@, from as int, to as int);
    }
    (q as i32 - 32768) as i16
}

/// Level of the band `sorted[lo..=hi]` of an ascending curve: its mean, or
/// the single level at `lo` where the band is empty.
pub open spec fn band_level(sorted: Seq<i16>, lo: int, hi: int) -> int {
    if hi > lo {
        level_mean(sorted, lo, hi + 1)
    } else if lo < sorted.len() {
        sorted[lo] as int
    } else {
        sorted[sorted.len() - 1] as int
    }
}

/// Noise floor of a curve: the mean of its values between the 5th and the
/// 10th percentile.
pub open spec fn noise_floor_of(s: Seq<i16>) -> int {
    band_level(sorted_levels(s), s.len() as int / 20, s.len() as int / 10)
}

/// Music level of a curve: the mean of its values between the 60th and the
/// 80th percentile.
pub open spec fn music_level_of(s: Seq<i16>) -> int {
    band_level(sorted_levels(s), 3 * s.len() as int / 5, 4 * s.len() as int / 5)
}

fn band_of(sorted: &Vec<i16>, lo: usize, hi: usize) -> (r: i16)
    requires
        sorted.len() > 0,
        hi < sorted.len(),
    ensures
        r == band_level(sorted@, lo as int, hi as int),
{
    if hi > lo {
        mean_level(sorted, lo, hi + 1)
    } else if lo < sorted.len() {
        sorted[lo]
    } else {
        sorted[sorted.len() - 1]
    }
}

/// Estimates the noise floor of a smoothed curve.
pub fn estimate_noise_floor(smoothed: &Vec<i16>) -> (r: i16)
    requires
        smoothed.len() > 0,
    ensures
        r == noise_floor_of(smoothed@),
{
    let sorted = sort_levels(smoothed);
    let n: usize = sorted.len();
    band_of(&sorted, n / 20, n / 10)
}

/// Estimates the typical music level of a smoothed curve.
pub fn estimate_music_level(smoothed: &Vec<i16>) -> (r: i16)
    requires
        smoothed.len() > 0,
    ensures
        r == music_level_of(smoothed@),
{
    let sorted = sort_levels(smoothed);
    let n: usize = sorted.len();
    let lower: usize = (n as u128 * 3 / 5) as usize;
    let upper: usize = (n as u128 * 4 / 5) as usize;
    band_of(&sorted, lower, upper)
}

/// Sum of the amplitudes `s[from..to]`.
pub open spec fn amplitude_sum(s: Seq<u32>, from: int, to: int) -> int
    decreases to - from,
{
    if from >= to {
        0
    } else {
        amplitude_sum(s, from, to - 1) + s[to - 1]
    }
}

/// First index of the smoothing window centred on `i`.
pub open spec fn window_start(i: int, half: int) -> int {
    if i > half {
        i - half
    } else {
        0
    }
}

/// End, exclusive, of the smoothing window centred on `i`.
pub open spec fn window_end(i: int, half: int, len: int) -> int {
    if i + half + 1 <= len {
        i + half + 1
    } else {
        len
    }
}

/// Moving average of `s` at `i` over a window of `window_size` samples,
/// shortened where it would leave the curve.
pub open spec fn smoothed_at(s: Seq<u32>, window_size: int, i: int) -> int {
    let half = window_size / 2;
    let from = window_start(i, half);
    let to = window_end(i, half, s.len() as int);
    amplitude_sum(s, from, to) / (to - from)
}

proof fn lemma_amplitude_sum_bounds(s: Seq<u32>, from: int, to: int)
    requires
        0 <= from <= to <= s.len(),
    ensures
        0 <= amplitude_sum(s, from, to) <= 0xffff_ffff * (to - from),
    decreases to - from,
{
    if from < to {
        lemma_amplitude_sum_bounds(s, from, to - 1);
    }
}

/// Smooths a curve of linear amplitudes with a centred moving average of
/// `window_size` samples.
pub fn smooth_rms(values: &Vec<u32>, window_size: usize) -> (r: Vec<u32>)
    ensures
        r@.len() == values@.len(),
        forall|i: int|
            0 <= i < values@.len() ==> r@[i] as int == #[trigger] smoothed_at(
                values@,
                window_size as int,
                i,
            ),
{
    let half: usize = window_size / 2;
    let len: usize = values.len();
    let mut out: Vec<u32> = Vec::new();
    let mut i: usize = 0;
    while i < len
        invariant
            i <= len,
            len == values.len(),
            half == window_size / 2,
            out@.len() == i,
            forall|k: int|
                0 <= k < i ==> out@[k] as int == #[trigger] smoothed_at(
                    values@,
                    window_size as int,
                    k,
                ),
        decreases len - i,
    {
        let from: usize = if i > half { i - half } else { 0 };
        let to: usize = if half < len - i { i + half + 1 } else { len };
        let mut sum: u128 = 0;
        let mut k: usize = from;
        while k < to
            invariant
                from <= k <= to <= len,
                len == values.len(),
                sum == amplitude_sum(values@, from as int, k as int),
                sum <= 0xffff_ffff * (k - from),
            decreases to - k,
        {
            sum = sum + values[k] as u128;
            k += 1;
        }
        let count: u128 = (to - from) as u128;
        let avg: u128 = sum / count;
        proof {
            lemma_amplitude_sum_bounds(values@, from as int, to as int);
            lemma_div_is_ordered(sum as int, 0xffff_ffff * (count as int), count as int);
            assert((0xffff_ffff * (count as int)) / (count as int) == 0xffff_ffff)
                by (nonlinear_arith)
                requires
                    count > 0,
            ;
            assert(from == window_start(i as int, half as int));
            assert(to == window_end(i as int, half as int, len as int));
        }
        out.push(avg as u32);
        i += 1;
    }
    out
}

} // verus!
