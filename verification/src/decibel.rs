//! Integer measures of a block of samples: peak, power and clipping.
//!
//! Conversion of these measures to decibels involves logarithms and is
//! left to the caller; levels come back as hundredths of a decibel.

use vstd::prelude::*;

verus! {

/// The magnitude of a sample.
pub open spec fn magnitude(s: i32) -> int {
    if s >= 0 {
        s as int
    } else {
        -(s as int)
    }
}

/// The largest magnitude among `samples[..upto]`; 0 for none.
pub open spec fn peak_of(samples: Seq<i32>, upto: int) -> int
    decreases upto,
{
    if upto <= 0 {
        0
    } else {
        let before = peak_of(samples, upto - 1);
        if magnitude(samples[upto - 1]) > before {
            magnitude(samples[upto - 1])
        } else {
            before
        }
    }
}

/// The sum of the squares of `samples[..upto]`.
pub open spec fn power_of(samples: Seq<i32>, upto: int) -> int
    decreases upto,
{
    if upto <= 0 {
        0
    } else {
        power_of(samples, upto - 1) + samples[upto - 1] * samples[upto - 1]
    }
}

/// Some sample has a magnitude of at least `threshold`.
pub open spec fn clips(samples: Seq<i32>, threshold: int) -> bool {
    exists|i: int| 0 <= i < samples.len() && magnitude(#[trigger] samples[i]) >= threshold
}

fn abs_of(s: i32) -> (r: u32)
    ensures
        r == magnitude(s),
{
    if s >= 0 {
        s as u32
    } else {
        (-(s as i64)) as u32
    }
}

/// Returns the largest magnitude among the samples, 0 for an empty block.
pub fn calculate_peak(samples: &Vec<i32>) -> (r: u32)
    ensures
        r == peak_of(samples@, samples@.len() as int),
{
    let mut peak: u32 = 0;
    let mut i: usize = 0;
    while i < samples.len()
        invariant
            i <= samples.len(),
            peak == peak_of(samples@, i as int),
        decreases samples.len() - i,
    {
        let m = abs_of(samples[i]);
        if m > peak {
            peak = m;
        }
        i += 1;
    }
    peak
}

proof fn lemma_power_bound(samples: Seq<i32>, upto: int)
    requires
        0 <= upto <= samples.len(),
    ensures
        0 <= power_of(samples, upto) <= upto * 0x4000_0000_0000_0000,
    decreases upto,
{
    if upto > 0 {
        lemma_power_bound(samples, upto - 1);
        let s = samples[upto - 1] as int;
        assert(0 <= s * s <= 0x4000_0000_0000_0000) by (nonlinear_arith)
            requires
                -0x8000_0000 <= s <= 0x8000_0000,
        ;
    }
}

/// Returns the sum of the squares of the samples. The mean square of a
/// block is this sum by the number of samples; a block is silent, with a
/// root mean square below one step, where the sum is below that number.
pub fn calculate_power(samples: &Vec<i32>) -> (r: u128)
    ensures
        r == power_of(samples@, samples@.len() as int),
{
    let mut sum: u128 = 0;
    let mut i: usize = 0;
    while i < samples.len()
        invariant
            i <= samples.len(),
            sum == power_of(samples@, i as int),
        decreases samples.len() - i,
    {
        proof {
            lemma_power_bound(samples@, i as int);
            lemma_power_bound(samples@, i + 1);
            assert(i * 0x4000_0000_0000_0000 <= 0xffff_ffff_ffff_ffff * 0x4000_0000_0000_0000)
                by (nonlinear_arith)
                requires
                    0 <= i <= 0xffff_ffff_ffff_ffff,
            ;
        }
        let m: u128 = abs_of(samples[i]) as u128;
        assert(m * m == samples@[i as int] * samples@[i as int]) by (nonlinear_arith)
            requires
                m == magnitude(samples@[i as int]),
        ;
        assert(m * m <= 0x4000_0000_0000_0000) by (nonlinear_arith)
            requires
                0 <= m <= 0x8000_0000,
        ;
        sum = sum + m * m;
        i += 1;
    }
    sum
}

/// Tells whether any sample reaches the clipping threshold.
pub fn detect_clipping(samples: &Vec<i32>, threshold: i32) -> (r: bool)
    ensures
        r == clips(samples@, threshold as int),
{
    let mut i: usize = 0;
    while i < samples.len()
        invariant
            i <= samples.len(),
            forall|j: int| 0 <= j < i ==> magnitude(#[trigger] samples@[j]) < threshold,
        decreases samples.len() - i,
    {
        if abs_of(samples[i]) as i64 >= threshold as i64 {
            return true;
        }
        i += 1;
    }
    false
}

/// The threshold at `permille` thousandths of `reference`, rounded down
/// and no larger than a sample can be.
pub open spec fn threshold_of(reference: int, permille: int) -> int {
    let exact = reference * permille / 1000;
    if exact > i32::MAX {
        i32::MAX as int
    } else {
        exact
    }
}

/// Returns the clipping threshold for a full-scale `reference`: `permille`
/// thousandths of it.
pub fn clipping_threshold(reference: u32, permille: u32) -> (r: i32)
    ensures
        r == threshold_of(reference as int, permille as int),
{
    assert(reference * permille <= 0xffff_ffff * 0xffff_ffff) by (nonlinear_arith)
        requires
            0 <= reference <= 0xffff_ffff,
            0 <= permille <= 0xffff_ffff,
    ;
    let exact: u64 = reference as u64 * permille as u64 / 1000;
    if exact > i32::MAX as u64 {
        i32::MAX
    } else {
        exact as i32
    }
}

/// `level` held between `min_db` and `max_db`; the ceiling wins where the
/// two cross.
pub open spec fn clamped_level(level: i16, min_db: i16, max_db: i16) -> i16 {
    let floored = if level < min_db {
        min_db
    } else {
        level
    };
    if floored > max_db {
        max_db
    } else {
        floored
    }
}

/// Holds a level between the floor `min_db` and the ceiling `max_db`.
pub fn clamp_level(level: i16, min_db: i16, max_db: i16) -> (r: i16)
    ensures
        r == clamped_level(level, min_db, max_db),
{
    let floored: i16 = if level < min_db { min_db } else { level };
    if floored > max_db {
        max_db
    } else {
        floored
    }
}

/// The level of a block whose root mean square, converted to hundredths of
/// a decibel, is `converted`: the floor for a block that is empty or whose
/// root mean square is below one step, else the conversion, both held
/// between floor and ceiling.
pub open spec fn rms_level(samples: Seq<i32>, converted: i16, min_db: i16, max_db: i16) -> i16 {
    if power_of(samples, samples.len() as int) < samples.len() || samples.len() == 0 {
        clamped_level(min_db, min_db, max_db)
    } else {
        clamped_level(converted, min_db, max_db)
    }
}

/// The level of a block whose peak, converted to hundredths of a decibel,
/// is `converted`: the floor for a block without a sample of magnitude 1,
/// else the conversion, both held between floor and ceiling.
pub open spec fn peak_level(samples: Seq<i32>, converted: i16, min_db: i16, max_db: i16) -> i16 {
    if peak_of(samples, samples.len() as int) < 1 {
        clamped_level(min_db, min_db, max_db)
    } else {
        clamped_level(converted, min_db, max_db)
    }
}

/// A block of zeros has no power.
pub proof fn lemma_silence_has_no_power(samples: Seq<i32>, upto: int)
    requires
        0 <= upto <= samples.len(),
        forall|i: int| 0 <= i < samples.len() ==> samples[i] == 0,
    ensures
        power_of(samples, upto) == 0,
        peak_of(samples, upto) == 0,
    decreases upto,
{
    if upto > 0 {
        lemma_silence_has_no_power(samples, upto - 1);
    }
}

/// Returns the RMS level of a block in hundredths of a decibel. `converted`
/// is twenty times the decimal logarithm of the root mean square over full
/// scale, which the caller computes; it is not looked at for a silent
/// block. Silence gives the floor.
pub fn calculate_rms_db(samples: &Vec<i32>, converted: i16, min_db: i16, max_db: i16) -> (r: i16)
    ensures
        r == rms_level(samples@, converted, min_db, max_db),
        (forall|i: int| 0 <= i < samples@.len() ==> samples@[i] == 0) && min_db <= max_db ==> r
            == min_db,
{
    proof {
        if forall|i: int| 0 <= i < samples@.len() ==> samples@[i] == 0 {
            lemma_silence_has_no_power(samples@, samples@.len() as int);
        }
    }
    let power = calculate_power(samples);
    if samples.len() == 0 || power < samples.len() as u128 {
        clamp_level(min_db, min_db, max_db)
    } else {
        clamp_level(converted, min_db, max_db)
    }
}

/// Returns the peak level of a block in hundredths of a decibel.
/// `converted` is twenty times the decimal logarithm of the peak over full
/// scale, which the caller computes; it is not looked at for a block
/// without a sample of magnitude 1. Silence gives the floor.
pub fn calculate_peak_db(samples: &Vec<i32>, converted: i16, min_db: i16, max_db: i16) -> (r: i16)
    ensures
        r == peak_level(samples@, converted, min_db, max_db),
        (forall|i: int| 0 <= i < samples@.len() ==> samples@[i] == 0) && min_db <= max_db ==> r
            == min_db,
{
    proof {
        if forall|i: int| 0 <= i < samples@.len() ==> samples@[i] == 0 {
            lemma_silence_has_no_power(samples@, samples@.len() as int);
        }
    }
    let peak = calculate_peak(samples);
    if peak < 1 {
        clamp_level(min_db, min_db, max_db)
    } else {
        clamp_level(converted, min_db, max_db)
    }
}

} // verus!
