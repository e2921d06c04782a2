//! Audio sources: their addresses, their common interface, and a source
//! that plays back samples held in memory.
//!
//! An address is `<scheme>:<device>` with one of the schemes `pipewire`,
//! `pw`, `pwpipe`, `alsa` and `file`. ALSA device names and paths of audio
//! files are recognised without a scheme; anything else goes to PipeWire.

use crate::pipewire_utils::Source;
use crate::text::{
    chars_of, ends_with, find_char, has_prefix, has_suffix, index_of, lowercase_of, slice_of,
    spells, starts_with, string_of, to_lowercase,
};
use crate::vu_meter::SampleFormat;
use vstd::prelude::*;
use vstd::string::StringExecFns;

verus! {

/// The text ends like the name of an audio file: in `.wav`, `.mp3` or
/// `.flac`, in any mix of cases.
pub open spec fn names_audio_file(a: Seq<char>) -> bool {
    let lower = lowercase_of(a);
    has_suffix(lower, ".wav"@) || has_suffix(lower, ".mp3"@) || has_suffix(lower, ".flac"@)
}

/// The text is the name of an ALSA device: it starts with `hw:` or
/// `plughw:`, or is `default`.
pub open spec fn names_alsa_device(a: Seq<char>) -> bool {
    has_prefix(a, "hw:"@) || has_prefix(a, "plughw:"@) || a == "default"@
}

/// The backend for an address with the scheme `scheme`, where the scheme
/// is known.
pub open spec fn backend_of_scheme(scheme: Seq<char>) -> Option<Seq<char>> {
    let lower = lowercase_of(scheme);
    if lower == "pipewire"@ || lower == "pw"@ {
        Some("pipewire"@)
    } else if lower == "pwpipe"@ {
        Some("pwpipe"@)
    } else if lower == "alsa"@ {
        Some("alsa"@)
    } else if lower == "file"@ {
        Some("file"@)
    } else {
        None
    }
}

/// Backend and device of an address.
///
/// An ALSA device name goes to `alsa` as it stands. An address with a
/// colon is split at the first one; a known scheme names the backend and
/// the rest is the device, an unknown scheme leaves the whole address to
/// `pipewire`. Without a colon, an address that holds a slash or ends like
/// an audio file goes to `file`, any other to `pipewire`.
pub open spec fn address_parts(a: Seq<char>) -> (Seq<char>, Seq<char>) {
    let colon = index_of(a, ':', 0);
    if names_alsa_device(a) {
        ("alsa"@, a)
    } else if colon < a.len() {
        match backend_of_scheme(a.subrange(0, colon)) {
            Some(backend) => (backend, a.subrange(colon + 1, a.len() as int)),
            None => ("pipewire"@, a),
        }
    } else if index_of(a, '/', 0) < a.len() || names_audio_file(a) {
        ("file"@, a)
    } else {
        ("pipewire"@, a)
    }
}

fn scheme_backend(scheme: &Vec<char>) -> (r: Option<&'static str>)
    ensures
        match r {
            Some(b) => backend_of_scheme(scheme@) == Some(b@),
            None => backend_of_scheme(scheme@) is None,
        },
{
    let text = string_of(scheme);
    let lowered = to_lowercase(text.as_str());
    let lower = chars_of(lowered.as_str());
    if spells(&lower, "pipewire") || spells(&lower, "pw") {
        Some("pipewire")
    } else if spells(&lower, "pwpipe") {
        Some("pwpipe")
    } else if spells(&lower, "alsa") {
        Some("alsa")
    } else if spells(&lower, "file") {
        Some("file")
    } else {
        None
    }
}

fn is_audio_file_name(address: &str) -> (r: bool)
    ensures
        r == names_audio_file(address@),
{
    let lowered = to_lowercase(address);
    let lower = chars_of(lowered.as_str());
    let wav = chars_of(".wav");
    let mp3 = chars_of(".mp3");
    let flac = chars_of(".flac");
    ends_with(&lower, &wav) || ends_with(&lower, &mp3) || ends_with(&lower, &flac)
}

/// Splits an address into the name of its backend and its device. Every
/// address has a backend; the result is never an error.
pub fn parse_audio_address(address: &str) -> (r: Result<(String, String), String>)
    ensures
        r matches Ok(parts) && (parts.0@, parts.1@) == address_parts(address@),
{
    let a = chars_of(address);
    let hw = chars_of("hw:");
    let plughw = chars_of("plughw:");
    if starts_with(&a, &hw) || starts_with(&a, &plughw) || spells(&a, "default") {
        return Ok((String::from_str("alsa"), String::from_str(address)));
    }
    let colon = find_char(&a, ':', 0);
    if colon < a.len() {
        let scheme = slice_of(&a, 0, colon);
        match scheme_backend(&scheme) {
            Some(backend) => {
                let device = slice_of(&a, colon + 1, a.len());
                Ok((String::from_str(backend), string_of(&device)))
            },
            None => Ok((String::from_str("pipewire"), String::from_str(address))),
        }
    } else if find_char(&a, '/', 0) < a.len() || is_audio_file_name(address) {
        Ok((String::from_str("file"), String::from_str(address)))
    } else {
        Ok((String::from_str("pipewire"), String::from_str(address)))
    }
}

/// The backends that can deliver audio.
#[derive(Clone, Copy, Debug, PartialEq, Eq, Structural)]
pub enum Backend {
    /// PipeWire, through its client library.
    PipeWire,
    /// PipeWire, through its recording tool.
    PwPipe,
    /// ALSA, through its recording tool.
    Alsa,
    /// An audio file.
    File,
}

impl Backend {
    /// The backend of this name, if there is one.
    pub open spec fn named(name: Seq<char>) -> Option<Backend> {
        if name == "pipewire"@ {
            Some(Backend::PipeWire)
        } else if name == "pwpipe"@ {
            Some(Backend::PwPipe)
        } else if name == "alsa"@ {
            Some(Backend::Alsa)
        } else if name == "file"@ {
            Some(Backend::File)
        } else {
            None
        }
    }
}

/// The width of one frame in bytes: the width of a sample for every
/// channel, or the largest count where that does not fit one.
pub open spec fn frame_width(channels: usize, format: SampleFormat) -> usize {
    if channels * format.width() <= usize::MAX {
        (channels * format.width()) as usize
    } else {
        usize::MAX
    }
}

/// Properties that every audio stream has. They stay as they are for as
/// long as the stream lives.
pub trait AudioStream {
    /// The sample rate of the stream, in frames per second. A stream
    /// that does not say what it is leaves it open.
    open spec fn rate_of(&self) -> u32 {
        arbitrary()
    }

    /// The number of channels of the stream. A stream that does not say
    /// what it is leaves it open.
    open spec fn channels_of(&self) -> usize {
        arbitrary()
    }

    /// The sample format of the stream. A stream that does not say what
    /// it is leaves it open.
    open spec fn format_of(&self) -> SampleFormat {
        arbitrary()
    }

    /// Returns the sample rate in frames per second.
    fn sample_rate(&self) -> (r: u32)
        ensures
            r == self.rate_of(),
    ;

    /// Returns the number of channels.
    fn channels(&self) -> (r: usize)
        ensures
            r == self.channels_of(),
    ;

    /// Returns the sample format.
    fn sample_format(&self) -> (r: SampleFormat)
        ensures
            r == self.format_of(),
    ;

    /// Returns the width of one sample in bytes.
    fn bytes_per_sample(&self) -> (r: usize)
        ensures
            r == self.format_of().width(),
    {
        self.sample_format().bytes_per_sample()
    }

    /// Returns the width of one frame in bytes, or the largest count where
    /// the width does not fit one.
    fn bytes_per_frame(&self) -> (r: usize)
        ensures
            r == frame_width(self.channels_of(), self.format_of()),
    {
        match self.channels().checked_mul(self.bytes_per_sample()) {
            Some(n) => n,
            None => usize::MAX,
        }
    }
}

/// An audio stream that delivers blocks of samples.
pub trait AudioInputStream: AudioStream {
    /// Reads a block of up to `frames` frames: one vector of samples per
    /// channel. Returns nothing once the stream has stopped or ended.
    fn read_chunk(&mut self, frames: usize) -> Option<Vec<Vec<i32>>>;

    /// Starts the stream.
    fn start(&mut self) -> Result<(), String>;

    /// Stops the stream.
    fn stop(&mut self);

    /// Tells whether the stream is running.
    fn is_active(&self) -> bool;
}

/// The stream that an address asks for: where the audio comes from and in
/// which shape. Opening the device is left to the backend.
#[derive(Clone, Debug)]
pub struct StreamRequest {
    /// Backend that delivers the audio.
    pub backend: Backend,
    /// Device, target or path, as the backend names it.
    pub device: String,
    /// Sample rate in frames per second.
    pub rate: u32,
    /// Number of channels.
    pub channel_count: usize,
    /// Sample format.
    pub format: SampleFormat,
}

impl AudioStream for StreamRequest {
    open spec fn rate_of(&self) -> u32 {
        self.rate
    }

    open spec fn channels_of(&self) -> usize {
        self.channel_count
    }

    open spec fn format_of(&self) -> SampleFormat {
        self.format
    }

    fn sample_rate(&self) -> (r: u32)
        ensures
            r == self.rate,
    {
        self.rate
    }

    fn channels(&self) -> (r: usize)
        ensures
            r == self.channel_count,
    {
        self.channel_count
    }

    fn sample_format(&self) -> (r: SampleFormat)
        ensures
            r == self.format,
    {
        self.format
    }
}

/// Describes the input stream for an address.
pub fn create_input_stream(address: &str, rate: u32, channels: usize, format: SampleFormat) -> (r:
    Result<StreamRequest, String>)
    ensures
        r matches Ok(request) && {
            &&& Backend::named(address_parts(address@).0) == Some(request.backend)
            &&& request.device@ == address_parts(address@).1
            &&& request.rate == rate
            &&& request.channel_count == channels
            &&& request.format == format
        },
{
    match parse_audio_address(address) {
        Ok(parts) => {
            let (name, device) = parts;
            let chars = chars_of(name.as_str());
            proof {
                reveal_strlit("pipewire");
                reveal_strlit("pwpipe");
                reveal_strlit("alsa");
                reveal_strlit("file");
                lemma_backend_names_differ();
            }
            let backend = if spells(&chars, "pipewire") {
                Backend::PipeWire
            } else if spells(&chars, "pwpipe") {
                Backend::PwPipe
            } else if spells(&chars, "alsa") {
                Backend::Alsa
            } else {
                Backend::File
            };
            Ok(StreamRequest { backend, device, rate, channel_count: channels, format })
        },
        Err(e) => Err(e),
    }
}

/// The address of every input names one of the four backends.
pub proof fn lemma_backend_names_differ()
    ensures
        "pipewire"@ != "pwpipe"@,
        "pipewire"@ != "alsa"@,
        "pipewire"@ != "file"@,
        "pwpipe"@ != "alsa"@,
        "pwpipe"@ != "file"@,
        "alsa"@ != "file"@,
        forall|a: Seq<char>| Backend::named(#[trigger] address_parts(a).0) is Some,
{
    reveal_strlit("pipewire");
    reveal_strlit("pwpipe");
    reveal_strlit("alsa");
    reveal_strlit("file");
    assert("pipewire"@.len() == 8 && "pwpipe"@.len() == 6 && "alsa"@.len() == 4 && "file"@.len()
        == 4);
    assert("alsa"@[0] != "file"@[0]);
}

/// A stream that plays back samples held in memory.
pub struct MemoryInputStream {
    /// Sample rate in frames per second.
    pub rate: u32,
    /// Sample format.
    pub format: SampleFormat,
    /// The samples, one vector per channel.
    pub samples: Vec<Vec<i32>>,
    /// Frames read so far.
    pub position: usize,
    /// Whether the stream is running.
    pub active: bool,
}

/// Number of frames of the shortest channel among `samples[..upto]`; the
/// largest count for none.
pub open spec fn frames_in(samples: Seq<Vec<i32>>, upto: int) -> int
    decreases upto,
{
    if upto <= 0 {
        usize::MAX as int
    } else {
        let before = frames_in(samples, upto - 1);
        if samples[upto - 1]@.len() < before {
            samples[upto - 1]@.len() as int
        } else {
            before
        }
    }
}

impl MemoryInputStream {
    /// Number of frames that the stream holds: none without channels.
    pub open spec fn frames(&self) -> int {
        if self.samples@.len() == 0 {
            0
        } else {
            frames_in(self.samples@, self.samples@.len() as int)
        }
    }

    /// Frames that are still to be read.
    pub open spec fn remaining(&self) -> int {
        if self.position < self.frames() {
            self.frames() - self.position
        } else {
            0
        }
    }

    /// What a read of up to `frames` frames gives and where it leaves the
    /// stream, `after`: a block holds the next frames of every channel,
    /// `frames` of them or as many as are left, and the stream has moved on
    /// by as many; without a block the stream stays where it was.
    pub open spec fn reads(&self, after: Self, frames: usize, r: Option<Vec<Vec<i32>>>) -> bool {
        match r {
            Some(block) => {
                let taken = if frames <= self.remaining() {
                    frames as int
                } else {
                    self.remaining()
                };
                &&& after.position == self.position + taken
                &&& block@.len() == self.samples@.len()
                &&& forall|c: int|
                    0 <= c < block@.len() ==> (#[trigger] block@[c])@ == self.samples@[c]@.subrange(
                        self.position as int,
                        self.position + taken,
                    )
            },
            None => after.position == self.position,
        }
    }

    /// Creates a stopped stream over `samples`.
    pub fn new(rate: u32, format: SampleFormat, samples: Vec<Vec<i32>>) -> (r: Self)
        ensures
            r.rate == rate,
            r.format == format,
            r.samples == samples,
            r.position == 0,
            !r.active,
    {
        MemoryInputStream { rate, format, samples, position: 0, active: false }
    }

    fn frame_count(&self) -> (r: usize)
        ensures
            r == self.frames(),
            forall|c: int| 0 <= c < self.samples@.len() ==> r <= (#[trigger] self.samples@[c])@.len(),
    {
        if self.samples.len() == 0 {
            return 0;
        }
        let mut least: usize = usize::MAX;
        let mut c: usize = 0;
        while c < self.samples.len()
            invariant
                c <= self.samples.len(),
                least == frames_in(self.samples@, c as int),
                forall|k: int| 0 <= k < c ==> least <= (#[trigger] self.samples@[k])@.len(),
            decreases self.samples.len() - c,
        {
            if self.samples[c].len() < least {
                least = self.samples[c].len();
            }
            c += 1;
        }
        least
    }

    /// Tells whether the stream is running.
    pub fn running(&self) -> (r: bool)
        ensures
            r == self.active,
    {
        self.active
    }

    /// Starts the stream. A stream that runs already refuses.
    pub fn begin(&mut self) -> (r: Result<(), String>)
        ensures
            final(self).active,
            r is Ok <==> !old(self).active,
            final(self).samples == old(self).samples,
            final(self).position == old(self).position,
            final(self).rate == old(self).rate,
            final(self).format == old(self).format,
    {
        if self.active {
            Err(String::from_str("Stream already active"))
        } else {
            self.active = true;
            Ok(())
        }
    }

    /// Stops the stream. Stopping a stopped stream changes nothing.
    pub fn halt(&mut self)
        ensures
            !final(self).active,
            final(self).samples == old(self).samples,
            final(self).position == old(self).position,
            final(self).rate == old(self).rate,
            final(self).format == old(self).format,
    {
        self.active = false;
    }

    /// Reads the next block: `frames` frames of every channel, or as many
    /// as are left. Returns nothing exactly when the stream is stopped or
    /// no frame is left.
    pub fn next_chunk(&mut self, frames: usize) -> (r: Option<Vec<Vec<i32>>>)
        ensures
            final(self).samples == old(self).samples,
            final(self).active == old(self).active,
            final(self).rate == old(self).rate,
            final(self).format == old(self).format,
            r is None <==> !old(self).active || old(self).remaining() == 0,
            old(self).reads(*final(self), frames, r),
    {
        let total = self.frame_count();
        if !self.active || self.position >= total {
            return None;
        }
        let left: usize = total - self.position;
        let taken: usize = if frames <= left { frames } else { left };
        let from: usize = self.position;
        let mut block: Vec<Vec<i32>> = Vec::new();
        let mut c: usize = 0;
        while c < self.samples.len()
            invariant
                c <= self.samples.len(),
                from + taken <= total <= usize::MAX,
                forall|k: int|
                    0 <= k < self.samples@.len() ==> total <= (#[trigger] self.samples@[k])@.len(),
                block@.len() == c,
                forall|k: int|
                    0 <= k < c ==> (#[trigger] block@[k])@ == self.samples@[k]@.subrange(
                        from as int,
                        from + taken,
                    ),
            decreases self.samples.len() - c,
        {
            let mut channel: Vec<i32> = Vec::new();
            let mut i: usize = 0;
            while i < taken
                invariant
                    i <= taken,
                    from + taken <= usize::MAX,
                    c < self.samples.len(),
                    from + taken <= self.samples@[c as int]@.len(),
                    channel@ == self.samples@[c as int]@.subrange(from as int, from + i),
                decreases taken - i,
            {
                channel.push(self.samples[c][from + i]);
                i += 1;
                assert(self.samples@[c as int]@.subrange(from as int, from + i)
                    == self.samples@[c as int]@.subrange(from as int, from + i - 1).push(
                    self.samples@[c as int]@[from + i - 1],
                ));
            }
            block.push(channel);
            c += 1;
        }
        self.position = from + taken;
        Some(block)
    }
}

impl AudioStream for MemoryInputStream {
    open spec fn rate_of(&self) -> u32 {
        self.rate
    }

    open spec fn channels_of(&self) -> usize {
        self.samples@.len() as usize
    }

    open spec fn format_of(&self) -> SampleFormat {
        self.format
    }

    fn sample_rate(&self) -> (r: u32)
        ensures
            r == self.rate,
    {
        self.rate
    }

    fn channels(&self) -> (r: usize)
        ensures
            r == self.samples@.len(),
    {
        self.samples.len()
    }

    fn sample_format(&self) -> (r: SampleFormat)
        ensures
            r == self.format,
    {
        self.format
    }
}

impl AudioInputStream for MemoryInputStream {
    fn read_chunk(&mut self, frames: usize) -> (r: Option<Vec<Vec<i32>>>)
        ensures
            final(self).samples == old(self).samples,
            final(self).active == old(self).active,
            final(self).rate == old(self).rate,
            final(self).format == old(self).format,
            r is None <==> !old(self).active || old(self).remaining() == 0,
            old(self).reads(*final(self), frames, r),
    {
        self.next_chunk(frames)
    }

    fn start(&mut self) -> (r: Result<(), String>)
        ensures
            final(self).active,
            r is Ok <==> !old(self).active,
            final(self).samples == old(self).samples,
            final(self).position == old(self).position,
            final(self).rate == old(self).rate,
            final(self).format == old(self).format,
    {
        self.begin()
    }

    fn stop(&mut self)
        ensures
            !final(self).active,
            final(self).samples == old(self).samples,
            final(self).position == old(self).position,
            final(self).rate == old(self).rate,
            final(self).format == old(self).format,
    {
        self.halt()
    }

    fn is_active(&self) -> (r: bool)
        ensures
            r == self.active,
    {
        self.running()
    }
}

/// An audio source that can be offered to the user.
#[derive(Clone, Debug)]
pub struct AudioSource {
    /// Name of the backend.
    pub backend: String,
    /// Address of the source.
    pub url: String,
    /// Description of the source, where it has one.
    pub description: Option<String>,
}

/// The source offered for `target` through the backend `backend`: its
/// address is the name of the backend, a colon and the name of the target.
pub open spec fn offers(source: AudioSource, backend: Seq<char>, target: Source) -> bool {
    &&& source.backend@ == backend
    &&& source.url@ == backend + ":"@ + target.name@
    &&& source.description == target.description
}

fn sources_of(backend: &str, targets: &Vec<Source>) -> (r: Vec<AudioSource>)
    ensures
        r@.len() == targets@.len(),
        forall|i: int| 0 <= i < targets@.len() ==> offers(#[trigger] r@[i], backend@, targets@[i]),
{
    let mut out: Vec<AudioSource> = Vec::new();
    let mut i: usize = 0;
    while i < targets.len()
        invariant
            i <= targets.len(),
            out@.len() == i,
            forall|k: int| 0 <= k < i ==> offers(#[trigger] out@[k], backend@, targets@[k]),
        decreases targets.len() - i,
    {
        let mut url = String::from_str(backend);
        url.append(":");
        url.append(targets[i].name.as_str());
        let description = match &targets[i].description {
            Some(d) => Some(d.clone()),
            None => None,
        };
        out.push(AudioSource { backend: String::from_str(backend), url, description });
        i += 1;
    }
    out
}

/// Offers the recording targets of PipeWire as sources of the backend
/// `pipewire`.
pub fn discover_pipewire_sources(targets: &Vec<Source>) -> (r: Vec<AudioSource>)
    ensures
        r@.len() == targets@.len(),
        forall|i: int|
            0 <= i < targets@.len() ==> offers(#[trigger] r@[i], "pipewire"@, targets@[i]),
{
    sources_of("pipewire", targets)
}

/// Offers the recording targets of PipeWire as sources of the backend
/// `pwpipe`.
pub fn discover_pwpipe_sources(targets: &Vec<Source>) -> (r: Vec<AudioSource>)
    ensures
        r@.len() == targets@.len(),
        forall|i: int| 0 <= i < targets@.len() ==> offers(#[trigger] r@[i], "pwpipe"@, targets@[i]),
{
    sources_of("pwpipe", targets)
}

/// Puts the sources of all backends into one list: PipeWire first, then
/// ALSA, then files.
pub fn discover_all_sources(
    pipewire: Vec<AudioSource>,
    alsa: Vec<AudioSource>,
    files: Vec<AudioSource>,
) -> (r: Vec<AudioSource>)
    ensures
        r@ == pipewire@ + alsa@ + files@,
{
    let mut all = pipewire;
    let mut rest = alsa;
    let mut last = files;
    all.append(&mut rest);
    all.append(&mut last);
    all
}

/// Widens an unsigned 8-bit sample to the full scale of 32 bits.
pub fn widen_u8(s: u8) -> (r: i32)
    ensures
        r == (s - 128) * 0x100_0000,
{
    (s as i32 - 128) * 0x100_0000
}

/// Widens an unsigned 16-bit sample to the full scale of 32 bits.
pub fn widen_u16(s: u16) -> (r: i32)
    ensures
        r == (s - 32768) * 0x1_0000,
{
    (s as i32 - 32768) * 0x1_0000
}

/// Widens an unsigned 32-bit sample: its midpoint becomes 0.
pub fn widen_u32(s: u32) -> (r: i32)
    ensures
        r == s - 0x8000_0000,
{
    (s as i64 - 0x8000_0000) as i32
}

/// Widens a signed 8-bit sample to the full scale of 32 bits.
pub fn widen_s8(s: i8) -> (r: i32)
    ensures
        r == s * 0x100_0000,
{
    (s as i32) * 0x100_0000
}

/// Widens a signed 16-bit sample to the full scale of 32 bits.
pub fn widen_s16(s: i16) -> (r: i32)
    ensures
        r == s * 0x1_0000,
{
    (s as i32) * 0x1_0000
}

/// Widens a signed 24-bit sample to the full scale of 32 bits.
pub fn widen_s24(s: i32) -> (r: i32)
    requires
        -0x80_0000 <= s < 0x80_0000,
    ensures
        r == s * 0x100,
{
    s * 0x100
}

/// Moves an unsigned 24-bit sample into the upper 24 of 32 bits; what does
/// not fit a signed number wraps around.
pub fn widen_u24(s: u32) -> (r: i32)
    requires
        s < 0x100_0000,
    ensures
        r == if s * 0x100 >= 0x8000_0000 {
            s * 0x100 - 0x1_0000_0000
        } else {
            s * 0x100
        },
{
    let moved: i64 = s as i64 * 0x100;
    if moved >= 0x8000_0000 {
        (moved - 0x1_0000_0000) as i32
    } else {
        moved as i32
    }
}

/// Fits decoded audio to `channels` channels: channels beyond that number
/// are left out, and missing ones repeat the last channel there is.
/// Audio without any channel stays without.
pub fn fit_channels(decoded: Vec<Vec<i32>>, channels: usize) -> (r: Vec<Vec<i32>>)
    ensures
        decoded@.len() == 0 ==> r@.len() == 0,
        decoded@.len() > 0 ==> r@.len() == channels,
        forall|c: int|
            0 <= c < r@.len() ==> #[trigger] r@[c]@ == if c < decoded@.len() {
                decoded@[c]@
            } else {
                decoded@[decoded@.len() - 1]@
            },
{
    let mut out: Vec<Vec<i32>> = Vec::new();
    if decoded.len() == 0 {
        return out;
    }
    let mut c: usize = 0;
    while c < channels
        invariant
            c <= channels,
            decoded@.len() > 0,
            out@.len() == c,
            forall|k: int|
                0 <= k < c ==> #[trigger] out@[k]@ == if k < decoded@.len() {
                    decoded@[k]@
                } else {
                    decoded@[decoded@.len() - 1]@
                },
        decreases channels - c,
    {
        let source: usize = if c < decoded.len() { c } else { decoded.len() - 1 };
        let mut copy: Vec<i32> = Vec::new();
        let mut i: usize = 0;
        while i < decoded[source].len()
            invariant
                source < decoded.len(),
                i <= decoded@[source as int]@.len(),
                copy@ == decoded@[source as int]@.take(i as int),
            decreases decoded@[source as int]@.len() - i,
        {
            copy.push(decoded[source][i]);
            i += 1;
            assert(decoded@[source as int]@.take(i as int) == decoded@[source as int]@.take(
                i - 1,
            ).push(decoded@[source as int]@[i - 1]));
        }
        assert(decoded@[source as int]@.take(decoded@[source as int]@.len() as int)
            == decoded@[source as int]@);
        out.push(copy);
        c += 1;
    }
    out
}

} // verus!
