//! The automatic recorder: when to open and close a file, what to write.
//!
//! The recorder decides; its caller owns the files. Every call returns the
//! actions to perform, in order. A recording that turns out shorter than
//! the minimum length is closed with the instruction to delete it, and the
//! number of the next file stays as it is. After a recording that is kept,
//! the next file gets the next number whose file was not there when the
//! session began.

use crate::text::{
    append, append_str, chars_of, decimal, digits_of, ends_with, has_suffix, lemma_digits_differ,
    lemma_digits_write_their_number, same_chars, slice_of, string_of,
};
use vstd::relations::injective_on;
use vstd::set_lib::{lemma_int_range, lemma_len_subset, lemma_map_size, set_int_range};
use crate::vu_meter::SampleFormat;
use crate::wavfile::{
    header_bytes, header_of, le16, le32, lemma_header_round_trip, wrap16, wrap32, write_wav_header,
    WavHeader,
};
use vstd::prelude::*;

verus! {

/// `name` without any `.wav` at its end, however often repeated.
pub open spec fn stem_of(name: Seq<char>) -> Seq<char>
    decreases name.len(),
{
    if name.len() >= 4 && has_suffix(name, ".wav"@) {
        stem_of(name.take(name.len() - 4))
    } else {
        name
    }
}

/// The name of recording number `n` of the series `base`: the stem, a dot,
/// the number and `.wav`.
pub open spec fn recording_name(base: Seq<char>, n: nat) -> Seq<char> {
    stem_of(base) + "."@ + digits_of(n) + ".wav"@
}

fn stem(name: &Vec<char>) -> (r: Vec<char>)
    ensures
        r@ == stem_of(name@),
{
    let suffix = chars_of(".wav");
    proof {
        reveal_strlit(".wav");
    }
    let mut end: usize = name.len();
    assert(name@.take(end as int) =~= name@);
    loop
        invariant
            end <= name.len(),
            suffix@ == ".wav"@,
            suffix@.len() == 4,
            stem_of(name@) == stem_of(name@.take(end as int)),
        decreases end,
    {
        let head = slice_of(name, 0, end);
        assert(head@ =~= name@.take(end as int));
        if end >= 4 && ends_with(&head, &suffix) {
            assert(head@.take(head@.len() - 4) =~= name@.take(end - 4));
            end -= 4;
        } else {
            return head;
        }
    }
}

/// Returns the name of recording number `file_number` of the series
/// `base_filename`.
pub fn get_next_filename(base_filename: &str, file_number: usize) -> (r: String)
    ensures
        r@ == recording_name(base_filename@, file_number as nat),
{
    let base = chars_of(base_filename);
    let mut name = stem(&base);
    append_str(&mut name, ".");
    let digits = decimal(file_number as u64);
    append(&mut name, &digits);
    append_str(&mut name, ".wav");
    string_of(&name)
}

/// `name` is one of `names`.
pub open spec fn is_listed(names: Seq<String>, name: Seq<char>) -> bool {
    exists|i: int| 0 <= i < names.len() && (#[trigger] names[i])@ == name
}

fn listed(names: &Vec<String>, name: &Vec<char>) -> (r: bool)
    ensures
        r == is_listed(names@, name@),
{
    let mut i: usize = 0;
    while i < names.len()
        invariant
            i <= names.len(),
            forall|j: int| 0 <= j < i ==> (#[trigger] names@[j])@ != name@,
        decreases names.len() - i,
    {
        let other = chars_of(names[i].as_str());
        if same_chars(&other, name) {
            return true;
        }
        i += 1;
    }
    false
}

/// Different numbers give different names.
pub proof fn lemma_names_differ(base: Seq<char>, a: nat, b: nat)
    requires
        recording_name(base, a) == recording_name(base, b),
    ensures
        a == b,
{
    let stem = stem_of(base) + "."@;
    let na = recording_name(base, a);
    let nb = recording_name(base, b);
    reveal_strlit(".wav");
    lemma_digits_write_their_number(a);
    lemma_digits_write_their_number(b);
    assert(na.len() == stem.len() + digits_of(a).len() + 4);
    assert(nb.len() == stem.len() + digits_of(b).len() + 4);
    assert(na.subrange(stem.len() as int, (stem.len() + digits_of(a).len()) as int) =~= digits_of(a));
    assert(nb.subrange(stem.len() as int, (stem.len() + digits_of(b).len()) as int) =~= digits_of(b));
    lemma_digits_differ(a, b);
}

/// Index of an entry of `names` that is the name of recording `m`.
pub open spec fn listing_of(names: Seq<String>, base: Seq<char>, m: int) -> int {
    choose|i: int| 0 <= i < names.len() && (#[trigger] names[i])@ == recording_name(base, m as nat)
}

/// A listing cannot hold the names of more recordings than it has
/// entries: where the names of the recordings 1 to `count` are all listed,
/// `count` is at most the number of entries.
pub proof fn lemma_listing_holds_no_more(names: Seq<String>, base: Seq<char>, count: int)
    requires
        0 <= count,
        forall|m: int|
            1 <= m <= count ==> is_listed(names, #[trigger] recording_name(base, m as nat)),
    ensures
        count <= names.len(),
{
    let numbers = set_int_range(1, count + 1);
    let places = set_int_range(0, names.len() as int);
    let f = |m: int| listing_of(names, base, m);
    lemma_int_range(1, count + 1);
    lemma_int_range(0, names.len() as int);
    assert forall|m: int| numbers.contains(m) implies 0 <= #[trigger] f(m) < names.len() && names[f(
        m,
    )]@ == recording_name(base, m as nat) by {
        assert(is_listed(names, recording_name(base, m as nat)));
    }
    assert(injective_on(f, numbers)) by {
        assert forall|a: int, b: int|
            numbers.contains(a) && numbers.contains(b) && #[trigger] f(a) == #[trigger] f(
                b,
            ) implies a == b by {
            assert(names[f(a)]@ == recording_name(base, a as nat));
            assert(names[f(b)]@ == recording_name(base, b as nat));
            lemma_names_differ(base, a as nat, b as nat);
        }
    }
    let taken = numbers.map(f);
    lemma_map_size(numbers, taken, f);
    assert(taken.subset_of(places)) by {
        assert forall|i: int| taken.contains(i) implies places.contains(i) by {
            let m = choose|m: int| numbers.contains(m) && f(m) == i;
            assert(0 <= f(m) < names.len());
        }
    }
    lemma_len_subset(taken, places);
}

/// `n` is the first number from `from` on whose recording is not among
/// `names`.
pub open spec fn is_first_free(names: Seq<String>, base: Seq<char>, from: int, n: int) -> bool {
    &&& from <= n
    &&& !is_listed(names, recording_name(base, n as nat))
    &&& forall|m: int|
        from <= m < n ==> is_listed(names, #[trigger] recording_name(base, m as nat))
}

/// The recording of every number from `from` up to the largest that can
/// be counted is among `names`.
pub open spec fn none_free(names: Seq<String>, base: Seq<char>, from: int) -> bool {
    forall|m: int|
        from <= m <= usize::MAX ==> is_listed(names, #[trigger] recording_name(base, m as nat))
}

/// Finds the first number from `from` on whose recording is not among
/// `existing`.
pub fn first_free(base_filename: &str, existing: &Vec<String>, from: usize) -> (r: Option<usize>)
    ensures
        match r {
            Some(n) => is_first_free(existing@, base_filename@, from as int, n as int),
            None => none_free(existing@, base_filename@, from as int),
        },
{
    let mut n: usize = from;
    loop
        invariant
            from <= n,
            forall|m: int|
                from <= m < n ==> is_listed(
                    existing@,
                    #[trigger] recording_name(base_filename@, m as nat),
                ),
        decreases usize::MAX - n,
    {
        let name = get_next_filename(base_filename, n);
        let chars = chars_of(name.as_str());
        if !listed(existing, &chars) {
            return Some(n);
        }
        if n == usize::MAX {
            return None;
        }
        n += 1;
    }
}

/// Without recordings to begin with, the first free number is the one
/// asked from.
pub proof fn lemma_first_free_without_files(names: Seq<String>, base: Seq<char>, from: int, n: int)
    requires
        names.len() == 0,
        is_first_free(names, base, from, n),
    ensures
        n == from,
{
    if from < n {
        assert(is_listed(names, recording_name(base, from as nat)));
    }
}

/// What the caller has to do with the files.
#[derive(Debug)]
pub enum RecorderAction {
    /// Create the file of this name and write the header for a data size
    /// of 0.
    Open(String),
    /// Append these interleaved samples to the open file.
    Write(Vec<i32>),
    /// Close the open file. Where `keep` holds, rewrite its header with
    /// the final data size; else delete the file.
    Close {
        /// Name of the file.
        file: String,
        /// Whether the recording reached the minimum length.
        keep: bool,
    },
}

/// One session of the automatic recorder.
pub struct AudioRecorder {
    /// Name of the series of recordings.
    pub base_filename: String,
    /// Sample rate of the recordings.
    pub rate: u32,
    /// Channels per frame.
    pub channels: usize,
    /// Sample format of the recordings.
    pub format: SampleFormat,
    /// Shortest recording that is kept, in microseconds.
    pub min_length_us: u64,
    /// Whether a file is open.
    pub recording: bool,
    /// Name of the open file.
    pub current_file: Option<String>,
    /// Time of the first block of the open recording.
    pub first_sample_us: Option<u64>,
    /// Number of the next recording.
    pub next_file_number: usize,
    /// Names of the files that were there when the session began.
    pub existing: Vec<String>,
}

/// The samples of one block, frame by frame and channel by channel within
/// a frame. A channel that the block lacks, or that is shorter than the
/// first, contributes zeros.
pub open spec fn interleaved(audio: Seq<Vec<i32>>, channels: int) -> Seq<i32> {
    Seq::new(
        (audio[0]@.len() * channels) as nat,
        |k: int|
            {
                let frame = k / channels;
                let ch = k % channels;
                if ch < audio.len() && frame < audio[ch]@.len() {
                    audio[ch]@[frame]
                } else {
                    0i32
                }
            },
    )
}

/// Interleaves the channels of one block.
pub fn interleave(audio_data: &Vec<Vec<i32>>, channels: usize) -> (r: Vec<i32>)
    requires
        audio_data@.len() > 0,
        audio_data@[0]@.len() * channels <= usize::MAX,
    ensures
        r@ == interleaved(audio_data@, channels as int),
{
    let frames: usize = audio_data[0].len();
    let mut out: Vec<i32> = Vec::new();
    let mut i: usize = 0;
    while i < frames
        invariant
            i <= frames,
            frames == audio_data@[0]@.len(),
            frames * channels <= usize::MAX,
            out@.len() == i * channels,
            forall|k: int| 0 <= k < out@.len() ==> out@[k] == interleaved(audio_data@, channels as int)[k],
        decreases frames - i,
    {
        let mut ch: usize = 0;
        while ch < channels
            invariant
                ch <= channels,
                i < frames,
                frames == audio_data@[0]@.len(),
                frames * channels <= usize::MAX,
                out@.len() == i * channels + ch,
                forall|k: int|
                    0 <= k < out@.len() ==> out@[k] == interleaved(audio_data@, channels as int)[k],
            decreases channels - ch,
        {
            let value: i32 = if ch < audio_data.len() && i < audio_data[ch].len() {
                audio_data[ch][i]
            } else {
                0
            };
            proof {
                let k = (i * channels + ch) as int;
                assert(k / (channels as int) == i && k % (channels as int) == ch) by (nonlinear_arith)
                    requires
                        k == i * channels + ch,
                        0 <= ch < channels,
                        0 <= i,
                ;
                assert(k < frames * channels) by (nonlinear_arith)
                    requires
                        k == i * channels + ch,
                        0 <= ch < channels,
                        0 <= i < frames,
                ;
            }
            out.push(value);
            ch += 1;
        }
        assert((i + 1) * channels == i * channels + channels) by (nonlinear_arith);
        i += 1;
    }
    assert(out@ =~= interleaved(audio_data@, channels as int));
    out
}

/// `a - b`, or 0 where `b` is the larger.
pub open spec fn elapsed_between(first: u64, now: u64) -> u64 {
    if now >= first {
        (now - first) as u64
    } else {
        0
    }
}

impl AudioRecorder {
    /// A file is open exactly while its name and the time of its first
    /// block are known, and the file of the next number was not there when
    /// the session began.
    pub open spec fn well_formed(&self) -> bool {
        &&& self.recording <==> self.current_file is Some
        &&& self.recording <==> self.first_sample_us is Some
        &&& !is_listed(
            self.existing@,
            recording_name(self.base_filename@, self.next_file_number as nat),
        )
    }

    /// The number that follows a recording that is kept is `n`: the first
    /// after the number of that recording whose file was not there when
    /// the session began. Where no such number can be counted, the number
    /// stays.
    pub open spec fn is_followed_by(&self, n: usize) -> bool {
        if none_free(self.existing@, self.base_filename@, self.next_file_number + 1) {
            n == self.next_file_number
        } else {
            is_first_free(
                self.existing@,
                self.base_filename@,
                self.next_file_number + 1,
                n as int,
            )
        }
    }

    /// The number of the next recording after a recording is closed at
    /// `now` is `n`: the number that follows where the recording is kept,
    /// the same number again where it is not.
    pub open spec fn closes_with(&self, now: u64, n: usize) -> bool {
        if self.long_enough(now) {
            self.is_followed_by(n)
        } else {
            n == self.next_file_number
        }
    }

    /// Whether a recording that started at `first` and is closed at `now`
    /// reached the minimum length.
    pub open spec fn long_enough(&self, now: u64) -> bool {
        self.first_sample_us matches Some(first) && elapsed_between(first, now)
            >= self.min_length_us
    }

    /// Starts a session for the series `base_filename`. The first
    /// recording gets the lowest number from 1 whose file is not among
    /// `existing`, the names of the files that are there.
    pub fn new(
        base_filename: String,
        rate: u32,
        channels: usize,
        format: SampleFormat,
        min_length_us: u64,
        existing: &Vec<String>,
    ) -> (r: Self)
        requires
            existing@.len() < usize::MAX,
        ensures
            r.well_formed(),
            !r.recording,
            r.base_filename == base_filename,
            r.rate == rate,
            r.channels == channels,
            r.format == format,
            r.min_length_us == min_length_us,
            r.existing@ == existing@,
            r.next_file_number >= 1,
            forall|m: int|
                1 <= m < r.next_file_number ==> is_listed(
                    existing@,
                    #[trigger] recording_name(base_filename@, m as nat),
                ),
            !is_listed(existing@, recording_name(base_filename@, r.next_file_number as nat)),
    {
        let n: usize = match first_free(base_filename.as_str(), existing, 1) {
            Some(n) => n,
            None => {
                proof {
                    lemma_listing_holds_no_more(existing@, base_filename@, usize::MAX as int);
                }
                1
            },
        };
        let mut names: Vec<String> = Vec::new();
        let mut i: usize = 0;
        while i < existing.len()
            invariant
                i <= existing.len(),
                names@ == existing@.take(i as int),
            decreases existing.len() - i,
        {
            names.push(existing[i].clone());
            assert(existing@.take(i + 1) == existing@.take(i as int).push(existing@[i as int]));
            i += 1;
        }
        assert(existing@.take(existing@.len() as int) == existing@);
        AudioRecorder {
            base_filename,
            rate,
            channels,
            format,
            min_length_us,
            recording: false,
            current_file: None,
            first_sample_us: None,
            next_file_number: n,
            existing: names,
        }
    }

    /// Tells whether a file is open.
    pub fn is_recording(&self) -> (r: bool)
        ensures
            r == self.recording,
    {
        self.recording
    }

    fn close_now(&mut self, now_us: u64) -> (r: RecorderAction)
        requires
            old(self).well_formed(),
            old(self).recording,
        ensures
            final(self).well_formed(),
            !final(self).recording,
            r matches RecorderAction::Close { file, keep } && Some(file) == old(self).current_file
                && keep == old(self).long_enough(now_us),
            old(self).closes_with(now_us, final(self).next_file_number),
            final(self).existing == old(self).existing,
            final(self).base_filename == old(self).base_filename,
            final(self).rate == old(self).rate,
            final(self).channels == old(self).channels,
            final(self).format == old(self).format,
            final(self).min_length_us == old(self).min_length_us,
    {
        let first: u64 = match self.first_sample_us {
            Some(t) => t,
            None => now_us,
        };
        let elapsed: u64 = if now_us >= first { now_us - first } else { 0 };
        let keep: bool = elapsed >= self.min_length_us;
        let mut name: Option<String> = None;
        std::mem::swap(&mut name, &mut self.current_file);
        let file: String = match name {
            Some(f) => f,
            None => String::new(),
        };
        if keep && self.next_file_number < usize::MAX {
            match first_free(
                self.base_filename.as_str(),
                &self.existing,
                self.next_file_number + 1,
            ) {
                Some(n) => {
                    self.next_file_number = n;
                },
                None => {},
            }
        }
        self.recording = false;
        self.first_sample_us = None;
        RecorderAction::Close { file, keep }
    }

    /// Takes one block of audio, taken at `now_us`, with the state of the
    /// signal detector.
    ///
    /// While the signal is on: opens the next file first, unless one is
    /// open, then writes the block, interleaved. While it is off: closes
    /// the open file, if there is one; the recording is kept where the
    /// time from its first block to `now_us` reaches the minimum length,
    /// and only then does the number of the next file advance. With no
    /// signal and no open file nothing happens.
    pub fn write_audio(&mut self, audio_data: &Vec<Vec<i32>>, is_on: bool, now_us: u64) -> (r: Vec<
        RecorderAction,
    >)
        requires
            old(self).well_formed(),
            is_on ==> audio_data@.len() > 0 && audio_data@[0]@.len() * old(self).channels
                <= usize::MAX,
        ensures
            final(self).well_formed(),
            final(self).base_filename == old(self).base_filename,
            final(self).rate == old(self).rate,
            final(self).channels == old(self).channels,
            final(self).format == old(self).format,
            final(self).min_length_us == old(self).min_length_us,
            final(self).existing == old(self).existing,
            final(self).recording == is_on,
            is_on && old(self).recording ==> {
                &&& r@.len() == 1
                &&& r@[0] matches RecorderAction::Write(samples) && samples@ == interleaved(
                    audio_data@,
                    old(self).channels as int,
                )
                &&& final(self).current_file == old(self).current_file
                &&& final(self).first_sample_us == old(self).first_sample_us
                &&& final(self).next_file_number == old(self).next_file_number
            },
            is_on && !old(self).recording ==> {
                &&& r@.len() == 2
                &&& r@[0] matches RecorderAction::Open(file) && file@ == recording_name(
                    old(self).base_filename@,
                    old(self).next_file_number as nat,
                ) && final(self).current_file == Some(file) && !is_listed(
                    old(self).existing@,
                    file@,
                )
                &&& r@[1] matches RecorderAction::Write(samples) && samples@ == interleaved(
                    audio_data@,
                    old(self).channels as int,
                )
                &&& final(self).first_sample_us == Some(now_us)
                &&& final(self).next_file_number == old(self).next_file_number
            },
            !is_on && old(self).recording ==> {
                &&& r@.len() == 1
                &&& r@[0] matches RecorderAction::Close { file, keep } && Some(file) == old(
                    self,
                ).current_file && keep == old(self).long_enough(now_us)
                &&& old(self).closes_with(now_us, final(self).next_file_number)
            },
            !is_on && !old(self).recording ==> r@.len() == 0 && final(self).next_file_number == old(
                self,
            ).next_file_number,
    {
        let mut actions: Vec<RecorderAction> = Vec::new();
        if is_on {
            if !self.recording {
                let name = get_next_filename(self.base_filename.as_str(), self.next_file_number);
                let copy = name.clone();
                self.current_file = Some(name);
                self.first_sample_us = Some(now_us);
                self.recording = true;
                actions.push(RecorderAction::Open(copy));
            }
            actions.push(RecorderAction::Write(interleave(audio_data, self.channels)));
        } else if self.recording {
            let action = self.close_now(now_us);
            actions.push(action);
        }
        actions
    }

    /// Ends the session at `now_us`: closes the open file, if there is
    /// one, as the end of the signal would.
    pub fn close(&mut self, now_us: u64) -> (r: Option<RecorderAction>)
        requires
            old(self).well_formed(),
        ensures
            final(self).well_formed(),
            !final(self).recording,
            final(self).base_filename == old(self).base_filename,
            final(self).min_length_us == old(self).min_length_us,
            final(self).existing == old(self).existing,
            match r {
                Some(action) => old(self).recording && (action matches RecorderAction::Close {
                    file,
                    keep,
                } && Some(file) == old(self).current_file && keep == old(self).long_enough(now_us))
                    && old(self).closes_with(now_us, final(self).next_file_number),
                None => !old(self).recording && final(self).next_file_number == old(
                    self,
                ).next_file_number,
            },
    {
        if self.recording {
            Some(self.close_now(now_us))
        } else {
            None
        }
    }
}

/// The numbers of the recordings of a session never fall, and after a
/// recording that is kept the next number is a later one, as long as one
/// can be counted.
pub proof fn lemma_numbers_grow(session: AudioRecorder, now: u64, n: usize)
    requires
        session.closes_with(now, n),
    ensures
        n >= session.next_file_number,
        session.long_enough(now) && !none_free(
            session.existing@,
            session.base_filename@,
            session.next_file_number + 1,
        ) ==> n > session.next_file_number,
{
}

/// In a session that began without recordings, the recordings that are
/// kept are numbered one after the other: the number after a kept
/// recording is the next.
pub proof fn lemma_kept_recordings_count_up(session: AudioRecorder, now: u64, n: usize)
    requires
        session.existing@.len() == 0,
        session.next_file_number < usize::MAX,
        session.long_enough(now),
        session.closes_with(now, n),
    ensures
        n == session.next_file_number + 1,
{
    let from = session.next_file_number + 1;
    assert(!is_listed(session.existing@, recording_name(session.base_filename@, from as nat)));
    lemma_first_free_without_files(session.existing@, session.base_filename@, from, n as int);
}

/// The bytes of one sample: its low 16 bits or its 32 bits, low byte
/// first.
pub open spec fn sample_bytes(s: i32, format: SampleFormat) -> Seq<u8> {
    match format {
        SampleFormat::S16 => le16(wrap16(s as int)),
        SampleFormat::S32 => le32(wrap32(s as int)),
    }
}

/// The bytes of the samples `samples[..upto]`, one after the other.
pub open spec fn encoded(samples: Seq<i32>, format: SampleFormat, upto: int) -> Seq<u8>
    decreases upto,
{
    if upto <= 0 {
        Seq::empty()
    } else {
        encoded(samples, format, upto - 1) + sample_bytes(samples[upto - 1], format)
    }
}

/// The encoding of `upto` samples has as many bytes as their width asks.
pub proof fn lemma_encoded_len(samples: Seq<i32>, format: SampleFormat, upto: int)
    requires
        0 <= upto,
    ensures
        encoded(samples, format, upto).len() == upto * format.width(),
    decreases upto,
{
    if upto > 0 {
        lemma_encoded_len(samples, format, upto - 1);
        assert(upto * format.width() == (upto - 1) * format.width() + format.width())
            by (nonlinear_arith);
    }
}

/// Writes the sample data of one recording, keeping count of its bytes.
pub struct WavWriter {
    /// Bytes of sample data handed out so far.
    pub data_size: u64,
    /// Sample rate of the recording.
    pub rate: u32,
    /// Channels per frame.
    pub channels: u16,
    /// Sample format of the recording.
    pub format: SampleFormat,
}

impl WavWriter {
    /// The header for the data handed out so far.
    pub open spec fn header(&self) -> WavHeader {
        WavHeader {
            sample_rate: self.rate,
            num_channels: self.channels,
            bits_per_sample: (self.format.width() * 8) as u16,
            data_size: wrap32(self.data_size as int),
        }
    }

    /// Starts a recording. Returns the writer and the header to put at
    /// the start of the file, for a data size of 0.
    pub fn new(rate: u32, channels: u16, format: SampleFormat) -> (r: (Self, Vec<u8>))
        ensures
            r.0.data_size == 0,
            r.0.rate == rate,
            r.0.channels == channels,
            r.0.format == format,
            r.1@ == header_bytes(r.0.header()),
    {
        let writer = WavWriter { data_size: 0, rate, channels, format };
        let header = writer.finalize();
        (writer, header)
    }

    /// Encodes samples for the file and counts their bytes.
    pub fn write_samples(&mut self, samples: &Vec<i32>) -> (r: Vec<u8>)
        requires
            old(self).data_size + samples@.len() * 4 <= u64::MAX,
        ensures
            r@ == encoded(samples@, old(self).format, samples@.len() as int),
            r@.len() == samples@.len() * old(self).format.width(),
            final(self).data_size == old(self).data_size + r@.len(),
            final(self).rate == old(self).rate,
            final(self).channels == old(self).channels,
            final(self).format == old(self).format,
    {
        let mut out: Vec<u8> = Vec::new();
        let mut i: usize = 0;
        while i < samples.len()
            invariant
                i <= samples.len(),
                out@ == encoded(samples@, self.format, i as int),
            decreases samples.len() - i,
        {
            let unsigned: u64 = (samples[i] as i64 + 0x1_0000_0000) as u64;
            match self.format {
                SampleFormat::S16 => {
                    let low: u16 = (unsigned % 0x1_0000) as u16;
                    assert(low == wrap16(samples@[i as int] as int));
                    out.push((low % 256) as u8);
                    out.push((low / 256) as u8);
                    assert(out@ =~= encoded(samples@, self.format, i as int) + le16(low));
                },
                SampleFormat::S32 => {
                    let all: u32 = (unsigned % 0x1_0000_0000) as u32;
                    assert(all == wrap32(samples@[i as int] as int));
                    out.push((all % 256) as u8);
                    out.push((all / 256 % 256) as u8);
                    out.push((all / 65536 % 256) as u8);
                    out.push((all / 16777216) as u8);
                    assert(out@ =~= encoded(samples@, self.format, i as int) + le32(all));
                },
            }
            i += 1;
        }
        proof {
            lemma_encoded_len(samples@, self.format, samples@.len() as int);
            assert(samples@.len() * self.format.width() <= samples@.len() * 4) by (nonlinear_arith)
                requires
                    self.format.width() <= 4,
            ;
        }
        self.data_size = self.data_size + out.len() as u64;
        out
    }

    /// Returns the header to put at the start of the file when the
    /// recording is closed: it declares the data handed out so far.
    pub fn finalize(&self) -> (r: Vec<u8>)
        ensures
            r@ == header_bytes(self.header()),
    {
        let bits: u16 = match self.format {
            SampleFormat::S16 => 16,
            SampleFormat::S32 => 32,
        };
        let header = WavHeader {
            sample_rate: self.rate,
            num_channels: self.channels,
            bits_per_sample: bits,
            data_size: (self.data_size % 0x1_0000_0000) as u32,
        };
        write_wav_header(&header)
    }
}

/// A recording reads back as it was written: the header that the writer
/// gives for the data handed out so far, with that data behind it, is read
/// with the rate, the channels and the sample width of the writer, and
/// with the size of the data as far as 32 bits can tell it.
pub proof fn lemma_recording_reads_back(writer: WavWriter, data: Seq<u8>)
    requires
        data.len() == writer.data_size,
    ensures
        header_of(header_bytes(writer.header()) + data) matches Ok(read) && {
            &&& read.sample_rate == writer.rate
            &&& read.num_channels == writer.channels
            &&& read.bits_per_sample == 8 * writer.format.width()
            &&& read.data_size == data.len() % 0x1_0000_0000
            &&& data.len() <= u32::MAX ==> read.data_size == data.len()
        },
{
    lemma_header_round_trip(writer.header(), data);
}

} // verus!
