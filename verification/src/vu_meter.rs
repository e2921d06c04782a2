//! Level metering with a hysteretic signal-present detector.
//!
//! The meter works on one block of audio per update. For every channel it
//! keeps the levels of the last updates that make up the silence window;
//! a channel is on while any level in its window is above the
//! off-threshold. Levels are hundredths of a decibel, times microseconds.

use crate::decibel::{
    calculate_peak_db, calculate_rms_db, clipping_threshold, clips, detect_clipping, peak_level,
    rms_level, threshold_of,
};
use crate::text::{chars_of, spells};
use vstd::prelude::*;
use vstd::string::StringExecFns;

verus! {

/// Sample formats of the capture path.
#[derive(Clone, Copy, Debug, PartialEq, Eq, Structural)]
pub enum SampleFormat {
    /// Signed 16 bit, little endian.
    S16,
    /// Signed 32 bit, little endian.
    S32,
}

/// Thousandths of full scale at which a sample counts as clipped.
pub const CLIP_PERMILLE: u32 = 999;

impl SampleFormat {
    /// The format that a name stands for, if any.
    pub open spec fn named(s: Seq<char>) -> Option<SampleFormat> {
        if s == "s16"@ || s == "s16le"@ {
            Some(SampleFormat::S16)
        } else if s == "s32"@ || s == "s32le"@ {
            Some(SampleFormat::S32)
        } else {
            None
        }
    }

    /// Reads a format from its name: `s16` or `s16le`, `s32` or `s32le`.
    /// Any other name is refused with a message that quotes it.
    pub fn from_str(s: &str) -> (r: Result<Self, String>)
        ensures
            match r {
                Ok(f) => Self::named(s@) == Some(f),
                Err(e) => Self::named(s@) is None && e@ == "Unsupported format: "@ + s@,
            },
    {
        let chars = chars_of(s);
        if spells(&chars, "s16") || spells(&chars, "s16le") {
            Ok(SampleFormat::S16)
        } else if spells(&chars, "s32") || spells(&chars, "s32le") {
            Ok(SampleFormat::S32)
        } else {
            let mut message = String::from_str("Unsupported format: ");
            message.append(s);
            Err(message)
        }
    }

    /// Width of one sample in bytes.
    pub open spec fn width(self) -> int {
        match self {
            SampleFormat::S16 => 2,
            SampleFormat::S32 => 4,
        }
    }

    /// Returns the width of one sample in bytes.
    pub fn bytes_per_sample(&self) -> (r: usize)
        ensures
            r == self.width(),
    {
        match self {
            SampleFormat::S16 => 2,
            SampleFormat::S32 => 4,
        }
    }

    /// Full scale of the format: the magnitude of its most negative sample.
    pub open spec fn full_scale(self) -> int {
        match self {
            SampleFormat::S16 => 32768,
            SampleFormat::S32 => 2147483648,
        }
    }

    /// Returns the full scale of the format.
    pub fn max_value(&self) -> (r: u32)
        ensures
            r == self.full_scale(),
    {
        match self {
            SampleFormat::S16 => 32768,
            SampleFormat::S32 => 2147483648,
        }
    }

    /// Returns the short name of the format.
    pub fn as_str(&self) -> (r: &'static str)
        ensures
            r@ == match self {
                SampleFormat::S16 => "s16"@,
                SampleFormat::S32 => "s32"@,
            },
            Self::named(r@) == Some(*self),
    {
        proof {
            reveal_strlit("s16");
            reveal_strlit("s32");
            reveal_strlit("s16le");
            reveal_strlit("s32le");
        }
        match self {
            SampleFormat::S16 => {
                assert("s16"@ != "s32"@) by {
                    assert("s16"@[1] != "s32"@[1]);
                }
                "s16"
            },
            SampleFormat::S32 => {
                assert("s32"@ != "s16"@) by {
                    assert("s16"@[1] != "s32"@[1]);
                }
                assert("s32"@.len() != "s16le"@.len());
                "s32"
            },
        }
    }
}

/// The window after `level` has entered it: the oldest level leaves where
/// the window would hold more than `size` levels.
pub open spec fn window_after<T>(window: Seq<T>, level: T, size: int) -> Seq<T> {
    let pushed = window.push(level);
    if pushed.len() > size {
        pushed.skip(1)
    } else {
        pushed
    }
}

/// The highest of `floor` and the levels `window[..upto]`.
pub open spec fn highest(window: Seq<i16>, floor: i16, upto: int) -> i16
    decreases upto,
{
    if upto <= 0 {
        floor
    } else {
        let before = highest(window, floor, upto - 1);
        if window[upto - 1] > before {
            window[upto - 1]
        } else {
            before
        }
    }
}

/// Some level of the window is above `threshold`.
pub open spec fn any_above(window: Seq<i16>, threshold: i16) -> bool {
    exists|i: int| 0 <= i < window.len() && #[trigger] window[i] > threshold
}

/// Some update of the window has clipped.
pub open spec fn any_set(window: Seq<bool>) -> bool {
    exists|i: int| 0 <= i < window.len() && #[trigger] window[i]
}

/// What the meter reports for one channel after an update.
#[derive(Clone, Copy, Debug, PartialEq, Eq, Structural)]
pub struct ChannelMetrics {
    /// RMS level of the block.
    pub db: i16,
    /// Peak level of the block.
    pub peak_db: i16,
    /// Highest RMS level in the window.
    pub max_db: i16,
    /// Highest peak level in the window.
    pub max_peak_db: i16,
    /// Whether any RMS level in the window is above the off-threshold.
    pub is_on: bool,
    /// Whether any block in the window has clipped.
    pub has_clipped: bool,
}

/// What was measured on one channel of one block.
#[derive(Clone, Copy, Debug, PartialEq, Eq, Structural)]
pub struct ChannelLevel {
    /// RMS level of the block.
    pub db: i16,
    /// Peak level of the block.
    pub peak_db: i16,
    /// Whether a sample of the block reached the clipping threshold.
    pub is_clipping: bool,
}

/// The meter: its settings and, per channel, the windows of RMS levels,
/// peak levels and clipping flags.
pub struct VUMeter {
    /// Sample rate of the metered stream.
    pub sample_rate: u32,
    /// Number of channels.
    pub channels: usize,
    /// Sample format of the metered stream.
    pub format: SampleFormat,
    /// Time between two updates.
    pub update_interval_us: u64,
    /// Range of the scale below the ceiling.
    pub db_range: i16,
    /// Ceiling of the scale.
    pub max_db: i16,
    /// Floor of the scale: the ceiling less the range.
    pub min_db: i16,
    /// Level above which a channel is on.
    pub off_threshold: i16,
    /// Length of the silence window.
    pub silence_duration_us: u64,
    /// Frames in one update.
    pub frames_per_update: usize,
    /// Updates in the silence window.
    pub history_size: usize,
    /// Per channel, the RMS levels in the window, oldest first.
    pub db_history: Vec<Vec<i16>>,
    /// Per channel, the clipping flags in the window, oldest first.
    pub clip_history: Vec<Vec<bool>>,
    /// Per channel, the peak levels in the window, oldest first.
    pub peak_history: Vec<Vec<i16>>,
}

/// The difference of two levels, held within the range of a level.
pub open spec fn level_below(max_db: i16, db_range: i16) -> i16 {
    if max_db - db_range < i16::MIN {
        i16::MIN
    } else if max_db - db_range > i16::MAX {
        i16::MAX
    } else {
        (max_db - db_range) as i16
    }
}

/// `n` held within the range of a count.
pub open spec fn count_of(n: int) -> usize {
    if n > usize::MAX {
        usize::MAX
    } else {
        n as usize
    }
}

fn push_window_i16(window: &mut Vec<i16>, level: i16, size: usize)
    ensures
        final(window)@ == window_after(old(window)@, level, size as int),
{
    window.push(level);
    if window.len() > size {
        window.remove(0);
        assert(window@ =~= old(window)@.push(level).skip(1));
    }
}

fn push_window_bool(window: &mut Vec<bool>, flag: bool, size: usize)
    ensures
        final(window)@ == window_after(old(window)@, flag, size as int),
{
    window.push(flag);
    if window.len() > size {
        window.remove(0);
        assert(window@ =~= old(window)@.push(flag).skip(1));
    }
}

fn highest_of(window: &Vec<i16>, floor: i16) -> (r: i16)
    ensures
        r == highest(window@, floor, window@.len() as int),
{
    let mut best: i16 = floor;
    let mut i: usize = 0;
    while i < window.len()
        invariant
            i <= window.len(),
            best == highest(window@, floor, i as int),
        decreases window.len() - i,
    {
        if window[i] > best {
            best = window[i];
        }
        i += 1;
    }
    best
}

fn is_any_above(window: &Vec<i16>, threshold: i16) -> (r: bool)
    ensures
        r == any_above(window@, threshold),
{
    let mut i: usize = 0;
    while i < window.len()
        invariant
            i <= window.len(),
            forall|j: int| 0 <= j < i ==> #[trigger] window@[j] <= threshold,
        decreases window.len() - i,
    {
        if window[i] > threshold {
            return true;
        }
        i += 1;
    }
    false
}

fn is_any_set(window: &Vec<bool>) -> (r: bool)
    ensures
        r == any_set(window@),
{
    let mut i: usize = 0;
    while i < window.len()
        invariant
            i <= window.len(),
            forall|j: int| 0 <= j < i ==> !#[trigger] window@[j],
        decreases window.len() - i,
    {
        if window[i] {
            return true;
        }
        i += 1;
    }
    false
}

fn empty_levels(channels: usize) -> (r: Vec<Vec<i16>>)
    ensures
        r@.len() == channels,
        forall|c: int| 0 <= c < channels ==> (#[trigger] r@[c])@.len() == 0,
{
    let mut out: Vec<Vec<i16>> = Vec::new();
    let mut c: usize = 0;
    while c < channels
        invariant
            c <= channels,
            out@.len() == c,
            forall|k: int| 0 <= k < c ==> (#[trigger] out@[k])@.len() == 0,
        decreases channels - c,
    {
        out.push(Vec::new());
        c += 1;
    }
    out
}

fn empty_flags(channels: usize) -> (r: Vec<Vec<bool>>)
    ensures
        r@.len() == channels,
        forall|c: int| 0 <= c < channels ==> (#[trigger] r@[c])@.len() == 0,
{
    let mut out: Vec<Vec<bool>> = Vec::new();
    let mut c: usize = 0;
    while c < channels
        invariant
            c <= channels,
            out@.len() == c,
            forall|k: int| 0 <= k < c ==> (#[trigger] out@[k])@.len() == 0,
        decreases channels - c,
    {
        out.push(Vec::new());
        c += 1;
    }
    out
}

impl VUMeter {
    /// The meter keeps one window of each kind per channel, none longer
    /// than the silence window.
    pub open spec fn well_formed(&self) -> bool {
        &&& self.db_history@.len() == self.channels
        &&& self.peak_history@.len() == self.channels
        &&& self.clip_history@.len() == self.channels
        &&& forall|c: int|
            0 <= c < self.channels ==> (#[trigger] self.db_history@[c])@.len() <= self.history_size
        &&& forall|c: int|
            0 <= c < self.channels ==> (#[trigger] self.peak_history@[c])@.len()
                <= self.history_size
        &&& forall|c: int|
            0 <= c < self.channels ==> (#[trigger] self.clip_history@[c])@.len()
                <= self.history_size
    }

    /// The RMS window of channel `c`.
    pub open spec fn window(&self, c: int) -> Seq<i16> {
        self.db_history@[c]@
    }

    /// Channel `c` is on.
    pub open spec fn channel_on(&self, c: int) -> bool {
        any_above(self.window(c), self.off_threshold)
    }

    /// Some channel is on.
    pub open spec fn any_channel_on(&self) -> bool {
        exists|c: int| 0 <= c < self.db_history@.len() && #[trigger] self.channel_on(c)
    }

    /// Creates a meter with empty windows. One update covers
    /// `update_interval_us` of audio; the silence window holds as many
    /// updates as fit into `silence_duration_us`.
    pub fn new(
        sample_rate: u32,
        channels: usize,
        format: SampleFormat,
        update_interval_us: u64,
        db_range: i16,
        max_db: i16,
        off_threshold: i16,
        silence_duration_us: u64,
    ) -> (r: Self)
        requires
            update_interval_us > 0,
        ensures
            r.well_formed(),
            r.sample_rate == sample_rate,
            r.channels == channels,
            r.format == format,
            r.update_interval_us == update_interval_us,
            r.db_range == db_range,
            r.max_db == max_db,
            r.min_db == level_below(max_db, db_range),
            r.off_threshold == off_threshold,
            r.silence_duration_us == silence_duration_us,
            r.frames_per_update == count_of(sample_rate * update_interval_us / 1_000_000),
            r.history_size == count_of(silence_duration_us as int / update_interval_us as int),
            forall|c: int| 0 <= c < channels ==> (#[trigger] r.window(c)).len() == 0,
            !r.any_channel_on(),
    {
        let low: i32 = max_db as i32 - db_range as i32;
        let min_db: i16 = if low < i16::MIN as i32 {
            i16::MIN
        } else if low > i16::MAX as i32 {
            i16::MAX
        } else {
            low as i16
        };
        assert(sample_rate * update_interval_us <= 0xffff_ffff * 0xffff_ffff_ffff_ffff)
            by (nonlinear_arith)
            requires
                0 <= sample_rate <= 0xffff_ffff,
                0 <= update_interval_us <= 0xffff_ffff_ffff_ffff,
        ;
        let frames: u128 = sample_rate as u128 * update_interval_us as u128 / 1_000_000;
        let frames_per_update: usize = if frames > usize::MAX as u128 {
            usize::MAX
        } else {
            frames as usize
        };
        let updates: u64 = silence_duration_us / update_interval_us;
        let history_size: usize = if updates > usize::MAX as u64 {
            usize::MAX
        } else {
            updates as usize
        };
        VUMeter {
            sample_rate,
            channels,
            format,
            update_interval_us,
            db_range,
            max_db,
            min_db,
            off_threshold,
            silence_duration_us,
            frames_per_update,
            history_size,
            db_history: empty_levels(channels),
            clip_history: empty_flags(channels),
            peak_history: empty_levels(channels),
        }
    }

    /// Returns the RMS level of a block on the scale of this meter.
    /// `converted` is the level that the root mean square of the block
    /// converts to; silence gives the floor of the scale.
    pub fn calculate_db(&self, audio_channel: &Vec<i32>, converted: i16) -> (r: i16)
        ensures
            r == rms_level(audio_channel@, converted, self.min_db, self.max_db),
            (forall|i: int| 0 <= i < audio_channel@.len() ==> audio_channel@[i] == 0)
                && self.min_db <= self.max_db ==> r == self.min_db,
    {
        calculate_rms_db(audio_channel, converted, self.min_db, self.max_db)
    }

    /// Returns the peak level of a block on the scale of this meter.
    /// `converted` is the level that the peak of the block converts to;
    /// silence gives the floor of the scale.
    pub fn calculate_peak_db(&self, audio_channel: &Vec<i32>, converted: i16) -> (r: i16)
        ensures
            r == peak_level(audio_channel@, converted, self.min_db, self.max_db),
            (forall|i: int| 0 <= i < audio_channel@.len() ==> audio_channel@[i] == 0)
                && self.min_db <= self.max_db ==> r == self.min_db,
    {
        calculate_peak_db(audio_channel, converted, self.min_db, self.max_db)
    }

    /// Tells whether a block of this meter's format has clipped: whether a
    /// sample reaches 999 thousandths of full scale.
    pub fn detect_clipping(&self, audio_channel: &Vec<i32>) -> (r: bool)
        ensures
            r == clips(
                audio_channel@,
                threshold_of(self.format.full_scale(), CLIP_PERMILLE as int),
            ),
    {
        let threshold = clipping_threshold(self.format.max_value(), CLIP_PERMILLE);
        detect_clipping(audio_channel, threshold)
    }

    /// Enters the levels of one block into the windows of `channel` and
    /// reports the highest RMS level, the highest peak level, whether the
    /// channel is on and whether it has clipped, all over the new windows.
    /// For a channel that the meter does not have, nothing changes and the
    /// report is the floor, off and not clipped.
    pub fn update_history(
        &mut self,
        channel: usize,
        db_value: i16,
        peak_db_value: i16,
        is_clipping: bool,
    ) -> (r: (i16, i16, bool, bool))
        requires
            old(self).well_formed(),
        ensures
            final(self).well_formed(),
            final(self).sample_rate == old(self).sample_rate,
            final(self).channels == old(self).channels,
            final(self).format == old(self).format,
            final(self).update_interval_us == old(self).update_interval_us,
            final(self).db_range == old(self).db_range,
            final(self).max_db == old(self).max_db,
            final(self).min_db == old(self).min_db,
            final(self).off_threshold == old(self).off_threshold,
            final(self).silence_duration_us == old(self).silence_duration_us,
            final(self).frames_per_update == old(self).frames_per_update,
            final(self).history_size == old(self).history_size,
            channel >= old(self).channels ==> *final(self) == *old(self) && r == (
                old(self).min_db,
                old(self).min_db,
                false,
                false,
            ),
            channel < old(self).channels ==> {
                &&& final(self).db_history@[channel as int]@ == window_after(
                    old(self).db_history@[channel as int]@,
                    db_value,
                    old(self).history_size as int,
                )
                &&& final(self).peak_history@[channel as int]@ == window_after(
                    old(self).peak_history@[channel as int]@,
                    peak_db_value,
                    old(self).history_size as int,
                )
                &&& final(self).clip_history@[channel as int]@ == window_after(
                    old(self).clip_history@[channel as int]@,
                    is_clipping,
                    old(self).history_size as int,
                )
                &&& forall|c: int|
                    0 <= c < old(self).channels && c != channel ==> {
                        &&& final(self).db_history@[c] == old(self).db_history@[c]
                        &&& final(self).peak_history@[c] == old(self).peak_history@[c]
                        &&& final(self).clip_history@[c] == old(self).clip_history@[c]
                    }
                &&& r.0 == highest(
                    final(self).db_history@[channel as int]@,
                    old(self).min_db,
                    final(self).db_history@[channel as int]@.len() as int,
                )
                &&& r.1 == highest(
                    final(self).peak_history@[channel as int]@,
                    old(self).min_db,
                    final(self).peak_history@[channel as int]@.len() as int,
                )
                &&& r.2 == final(self).channel_on(channel as int)
                &&& r.3 == any_set(final(self).clip_history@[channel as int]@)
            },
    {
        if channel >= self.channels {
            return (self.min_db, self.min_db, false, false);
        }
        let size: usize = self.history_size;
        let mut levels: Vec<i16> = Vec::new();
        std::mem::swap(&mut levels, &mut self.db_history[channel]);
        push_window_i16(&mut levels, db_value, size);
        let max_db = highest_of(&levels, self.min_db);
        let is_on = is_any_above(&levels, self.off_threshold);
        self.db_history[channel] = levels;
        let mut peaks: Vec<i16> = Vec::new();
        std::mem::swap(&mut peaks, &mut self.peak_history[channel]);
        push_window_i16(&mut peaks, peak_db_value, size);
        let max_peak_db = highest_of(&peaks, self.min_db);
        self.peak_history[channel] = peaks;
        let mut flags: Vec<bool> = Vec::new();
        std::mem::swap(&mut flags, &mut self.clip_history[channel]);
        push_window_bool(&mut flags, is_clipping, size);
        let has_clipped = is_any_set(&flags);
        self.clip_history[channel] = flags;
        (max_db, max_peak_db, is_on, has_clipped)
    }

    /// Tells whether any channel is on: the input counts as present while
    /// this holds.
    pub fn is_any_channel_on(&self) -> (r: bool)
        ensures
            r == self.any_channel_on(),
    {
        let mut c: usize = 0;
        while c < self.db_history.len()
            invariant
                c <= self.db_history.len(),
                forall|k: int| 0 <= k < c ==> !#[trigger] self.channel_on(k),
            decreases self.db_history.len() - c,
        {
            if is_any_above(&self.db_history[c], self.off_threshold) {
                assert(self.channel_on(c as int));
                return true;
            }
            c += 1;
        }
        false
    }
}

/// The report for channel `c` of a block measured as `level`, made after
/// the update that left the meter as `after`.
pub open spec fn metrics_for(after: VUMeter, c: int, level: ChannelLevel) -> ChannelMetrics {
    if c < after.channels {
        ChannelMetrics {
            db: level.db,
            peak_db: level.peak_db,
            max_db: highest(after.db_history@[c]@, after.min_db, after.db_history@[c]@.len() as int),
            max_peak_db: highest(
                after.peak_history@[c]@,
                after.min_db,
                after.peak_history@[c]@.len() as int,
            ),
            is_on: after.channel_on(c),
            has_clipped: any_set(after.clip_history@[c]@),
        }
    } else {
        ChannelMetrics {
            db: level.db,
            peak_db: level.peak_db,
            max_db: after.min_db,
            max_peak_db: after.min_db,
            is_on: false,
            has_clipped: false,
        }
    }
}

/// The windows of `after` are those of `before` with the levels of the
/// channels below `upto` entered: channel `c` takes `levels[c]`, and the
/// windows of the other channels are as they were.
pub open spec fn entered(before: VUMeter, after: VUMeter, levels: Seq<ChannelLevel>, upto: int) -> bool {
    forall|c: int|
        0 <= c < before.channels ==> {
            &&& #[trigger] after.db_history@[c]@ == if c < upto {
                window_after(before.db_history@[c]@, levels[c].db, before.history_size as int)
            } else {
                before.db_history@[c]@
            }
            &&& after.peak_history@[c]@ == if c < upto {
                window_after(
                    before.peak_history@[c]@,
                    levels[c].peak_db,
                    before.history_size as int,
                )
            } else {
                before.peak_history@[c]@
            }
            &&& after.clip_history@[c]@ == if c < upto {
                window_after(
                    before.clip_history@[c]@,
                    levels[c].is_clipping,
                    before.history_size as int,
                )
            } else {
                before.clip_history@[c]@
            }
        }
}

/// Enters the levels measured on every channel of one block and reports
/// the metrics of each. Channel `c` of the meter takes `levels[c]`; the
/// windows of channels without a level stay as they are.
pub fn process_audio_chunk(vu_meter: &mut VUMeter, levels: &Vec<ChannelLevel>) -> (r: Vec<
    ChannelMetrics,
>)
    requires
        old(vu_meter).well_formed(),
    ensures
        final(vu_meter).well_formed(),
        final(vu_meter).channels == old(vu_meter).channels,
        final(vu_meter).history_size == old(vu_meter).history_size,
        final(vu_meter).off_threshold == old(vu_meter).off_threshold,
        final(vu_meter).min_db == old(vu_meter).min_db,
        final(vu_meter).max_db == old(vu_meter).max_db,
        final(vu_meter).format == old(vu_meter).format,
        final(vu_meter).frames_per_update == old(vu_meter).frames_per_update,
        r@.len() == levels@.len(),
        forall|c: int|
            0 <= c < levels@.len() ==> #[trigger] r@[c] == metrics_for(
                *final(vu_meter),
                c,
                levels@[c],
            ),
        entered(*old(vu_meter), *final(vu_meter), levels@, levels@.len() as int),
{
    let mut out: Vec<ChannelMetrics> = Vec::new();
    let mut c: usize = 0;
    while c < levels.len()
        invariant
            c <= levels.len(),
            old(vu_meter).well_formed(),
            vu_meter.well_formed(),
            vu_meter.channels == old(vu_meter).channels,
            vu_meter.history_size == old(vu_meter).history_size,
            vu_meter.off_threshold == old(vu_meter).off_threshold,
            vu_meter.min_db == old(vu_meter).min_db,
            vu_meter.max_db == old(vu_meter).max_db,
            vu_meter.format == old(vu_meter).format,
            vu_meter.frames_per_update == old(vu_meter).frames_per_update,
            out@.len() == c,
            forall|k: int|
                0 <= k < c ==> (#[trigger] out@[k]) == metrics_for(*vu_meter, k, levels@[k]),
            entered(*old(vu_meter), *vu_meter, levels@, c as int),
        decreases levels.len() - c,
    {
        let level = levels[c];
        let ghost before = *vu_meter;
        let (max_db, max_peak_db, is_on, has_clipped) = vu_meter.update_history(
            c,
            level.db,
            level.peak_db,
            level.is_clipping,
        );
        out.push(
            ChannelMetrics {
                db: level.db,
                peak_db: level.peak_db,
                max_db,
                max_peak_db,
                is_on,
                has_clipped,
            },
        );
        proof {
            assert forall|k: int| 0 <= k < c implies (#[trigger] out@[k]) == metrics_for(
                *vu_meter,
                k,
                levels@[k],
            ) by {
                assert(out@[k] == metrics_for(before, k, levels@[k]));
                if k < before.channels && c < before.channels {
                    assert(vu_meter.db_history@[k] == before.db_history@[k]);
                    assert(vu_meter.peak_history@[k] == before.peak_history@[k]);
                    assert(vu_meter.clip_history@[k] == before.clip_history@[k]);
                }
            }
            assert forall|k: int| 0 <= k < old(vu_meter).channels implies {
                &&& #[trigger] vu_meter.db_history@[k]@ == if k < c + 1 {
                    window_after(
                        old(vu_meter).db_history@[k]@,
                        levels@[k].db,
                        old(vu_meter).history_size as int,
                    )
                } else {
                    old(vu_meter).db_history@[k]@
                }
                &&& vu_meter.peak_history@[k]@ == if k < c + 1 {
                    window_after(
                        old(vu_meter).peak_history@[k]@,
                        levels@[k].peak_db,
                        old(vu_meter).history_size as int,
                    )
                } else {
                    old(vu_meter).peak_history@[k]@
                }
                &&& vu_meter.clip_history@[k]@ == if k < c + 1 {
                    window_after(
                        old(vu_meter).clip_history@[k]@,
                        levels@[k].is_clipping,
                        old(vu_meter).history_size as int,
                    )
                } else {
                    old(vu_meter).clip_history@[k]@
                }
            } by {
                assert(before.db_history@[k]@ == if k < c {
                    window_after(
                        old(vu_meter).db_history@[k]@,
                        levels@[k].db,
                        old(vu_meter).history_size as int,
                    )
                } else {
                    old(vu_meter).db_history@[k]@
                });
                if k != c && c < before.channels {
                    assert(vu_meter.db_history@[k] == before.db_history@[k]);
                    assert(vu_meter.peak_history@[k] == before.peak_history@[k]);
                    assert(vu_meter.clip_history@[k] == before.clip_history@[k]);
                }
            }
            assert(entered(*old(vu_meter), *vu_meter, levels@, c + 1));
        }
        c += 1;
    }
    out
}

/// A channel that was on goes off only when its window is full and every
/// level in it, the one that just entered included, is at or below the
/// off-threshold.
pub proof fn lemma_off_only_after_full_silence(
    window: Seq<i16>,
    level: i16,
    size: int,
    threshold: i16,
)
    requires
        window.len() <= size,
        any_above(window, threshold),
        !any_above(window_after(window, level, size), threshold),
    ensures
        window_after(window, level, size).len() == size,
        size >= 1,
        level <= threshold,
        forall|i: int|
            0 <= i < size ==> #[trigger] window_after(window, level, size)[i] <= threshold,
{
    let pushed = window.push(level);
    let after = window_after(window, level, size);
    let k = choose|k: int| 0 <= k < window.len() && #[trigger] window[k] > threshold;
    if pushed.len() <= size {
        assert(after[k] == window[k]);
    }
    assert(after == pushed.skip(1));
    assert(after[after.len() - 1] == level);
    assert forall|i: int| 0 <= i < size implies #[trigger] after[i] <= threshold by {
        if after[i] > threshold {
            assert(any_above(after, threshold));
        }
    }
}

} // verus!
