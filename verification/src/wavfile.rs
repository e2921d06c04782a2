//! The RIFF/WAVE container of a PCM recording, as bytes.
//!
//! A file is a header of 44 bytes followed by the sample data. The header
//! is written once with a data size of 0 and once more, with the final
//! size, when the recording is closed.

use crate::vu_meter::SampleFormat;
use vstd::prelude::*;

verus! {

/// Number of bytes of the canonical header.
pub const HEADER_LEN: usize = 44;

/// What a header tells about the audio in a file.
#[derive(Clone, Copy, Debug, PartialEq, Eq, Structural)]
pub struct WavHeader {
    /// Frames per second.
    pub sample_rate: u32,
    /// Channels per frame.
    pub num_channels: u16,
    /// Bits per sample of one channel.
    pub bits_per_sample: u16,
    /// Number of bytes of sample data.
    pub data_size: u32,
}

/// Why a header could not be read.
#[derive(Clone, Copy, Debug, PartialEq, Eq, Structural)]
pub enum WavError {
    /// The file is shorter than a header.
    TooShort,
    /// The file does not start as a RIFF/WAVE file with a format chunk.
    NotWav,
    /// No data chunk follows the format chunk.
    NoDataChunk,
}

/// The tag `RIFF`.
pub open spec fn riff_tag() -> Seq<u8> {
    seq![0x52u8, 0x49u8, 0x46u8, 0x46u8]
}

/// The tag `WAVE`.
pub open spec fn wave_tag() -> Seq<u8> {
    seq![0x57u8, 0x41u8, 0x56u8, 0x45u8]
}

/// The tag `fmt `.
pub open spec fn fmt_tag() -> Seq<u8> {
    seq![0x66u8, 0x6du8, 0x74u8, 0x20u8]
}

/// The tag `data`.
pub open spec fn data_tag() -> Seq<u8> {
    seq![0x64u8, 0x61u8, 0x74u8, 0x61u8]
}

/// The two bytes of `x`, low byte first.
pub open spec fn le16(x: u16) -> Seq<u8> {
    seq![(x % 256) as u8, (x / 256) as u8]
}

/// The four bytes of `x`, low byte first.
pub open spec fn le32(x: u32) -> Seq<u8> {
    seq![
        (x % 256) as u8,
        (x / 256 % 256) as u8,
        (x / 65536 % 256) as u8,
        (x / 16777216) as u8,
    ]
}

/// The number whose two bytes, low byte first, stand at `at` in `b`.
pub open spec fn read16(b: Seq<u8>, at: int) -> u16 {
    (b[at] + 256 * b[at + 1]) as u16
}

/// The number whose four bytes, low byte first, stand at `at` in `b`.
pub open spec fn read32(b: Seq<u8>, at: int) -> u32 {
    (b[at] + 256 * b[at + 1] + 65536 * b[at + 2] + 16777216 * b[at + 3]) as u32
}

/// `n` reduced to 32 bits.
pub open spec fn wrap32(n: int) -> u32 {
    (n % 0x1_0000_0000) as u32
}

/// `n` reduced to 16 bits.
pub open spec fn wrap16(n: int) -> u16 {
    (n % 0x1_0000) as u16
}

/// Bytes per second of the audio that `h` describes, reduced to 32 bits.
pub open spec fn byte_rate_of(h: WavHeader) -> u32 {
    wrap32(h.sample_rate * h.num_channels * (h.bits_per_sample / 8))
}

/// Bytes per frame of the audio that `h` describes, reduced to 16 bits.
pub open spec fn block_align_of(h: WavHeader) -> u16 {
    wrap16(h.num_channels * (h.bits_per_sample / 8))
}

/// Byte `i` of the canonical header for `h`. The header holds, from offset
/// 0: the tag `RIFF`, the size of what follows that field, the tags `WAVE`
/// and `fmt `, the size 16 of the format chunk, the format 1 for PCM, the
/// channels, the sample rate, the byte rate, the block alignment, the bits
/// per sample, the tag `data` and the size of the data.
pub open spec fn header_byte(h: WavHeader, i: int) -> u8 {
    if i < 4 {
        riff_tag()[i]
    } else if i < 8 {
        le32(wrap32(h.data_size + 36))[i - 4]
    } else if i < 12 {
        wave_tag()[i - 8]
    } else if i < 16 {
        fmt_tag()[i - 12]
    } else if i < 20 {
        le32(16)[i - 16]
    } else if i < 22 {
        le16(1)[i - 20]
    } else if i < 24 {
        le16(h.num_channels)[i - 22]
    } else if i < 28 {
        le32(h.sample_rate)[i - 24]
    } else if i < 32 {
        le32(byte_rate_of(h))[i - 28]
    } else if i < 34 {
        le16(block_align_of(h))[i - 32]
    } else if i < 36 {
        le16(h.bits_per_sample)[i - 34]
    } else if i < 40 {
        data_tag()[i - 36]
    } else {
        le32(h.data_size)[i - 40]
    }
}

/// The canonical header for `h`.
pub open spec fn header_bytes(h: WavHeader) -> Seq<u8> {
    Seq::new(HEADER_LEN as nat, |i: int| header_byte(h, i))
}

fn push16(out: &mut Vec<u8>, x: u16)
    ensures
        final(out)@ == old(out)@ + le16(x),
{
    out.push((x % 256) as u8);
    out.push((x / 256) as u8);
    assert(out@ =~= old(out)@ + le16(x));
}

fn push32(out: &mut Vec<u8>, x: u32)
    ensures
        final(out)@ == old(out)@ + le32(x),
{
    out.push((x % 256) as u8);
    out.push((x / 256 % 256) as u8);
    out.push((x / 65536 % 256) as u8);
    out.push((x / 16777216) as u8);
    assert(out@ =~= old(out)@ + le32(x));
}

fn push_tag(out: &mut Vec<u8>, a: u8, b: u8, c: u8, d: u8)
    ensures
        final(out)@ == old(out)@ + seq![a, b, c, d],
{
    out.push(a);
    out.push(b);
    out.push(c);
    out.push(d);
    assert(out@ =~= old(out)@ + seq![a, b, c, d]);
}

/// Writes the canonical header for `h`.
pub fn write_wav_header(h: &WavHeader) -> (r: Vec<u8>)
    ensures
        r@ == header_bytes(*h),
        r@.len() == HEADER_LEN,
{
    let width: u64 = (h.bits_per_sample / 8) as u64;
    assert(h.num_channels * width <= 0xffff * 0x1fff) by (nonlinear_arith)
        requires
            0 <= h.num_channels <= 0xffff,
            0 <= width <= 0x1fff,
    ;
    assert(h.sample_rate * h.num_channels * width <= 0xffff_ffff * (0xffff * 0x1fff))
        by (nonlinear_arith)
        requires
            0 <= h.sample_rate <= 0xffff_ffff,
            0 <= h.num_channels * width <= 0xffff * 0x1fff,
    ;
    assert(h.sample_rate * h.num_channels <= 0xffff_ffff * 0xffff) by (nonlinear_arith)
        requires
            0 <= h.sample_rate <= 0xffff_ffff,
            0 <= h.num_channels <= 0xffff,
    ;
    let byte_rate: u32 = ((h.sample_rate as u64 * h.num_channels as u64 * width) % 0x1_0000_0000) as u32;
    let block_align: u16 = ((h.num_channels as u64 * width) % 0x1_0000) as u16;
    let riff_size: u32 = ((h.data_size as u64 + 36) % 0x1_0000_0000) as u32;
    let mut out: Vec<u8> = Vec::new();
    push_tag(&mut out, 0x52, 0x49, 0x46, 0x46);
    push32(&mut out, riff_size);
    push_tag(&mut out, 0x57, 0x41, 0x56, 0x45);
    push_tag(&mut out, 0x66, 0x6d, 0x74, 0x20);
    push32(&mut out, 16);
    push16(&mut out, 1);
    push16(&mut out, h.num_channels);
    push32(&mut out, h.sample_rate);
    push32(&mut out, byte_rate);
    push16(&mut out, block_align);
    push16(&mut out, h.bits_per_sample);
    push_tag(&mut out, 0x64, 0x61, 0x74, 0x61);
    push32(&mut out, h.data_size);
    assert(out@ =~= header_bytes(*h));
    out
}

/// The size that the chunk at `pos` declares.
pub open spec fn declared_size(b: Seq<u8>, pos: int) -> nat {
    read32(b, pos + 4) as nat
}

/// The data chunk found from `pos` on: where its bytes start, and how many
/// it declares. Chunks of another kind are skipped by their declared size.
pub open spec fn data_chunk(b: Seq<u8>, pos: int) -> Option<(int, u32)>
    decreases b.len() - pos,
{
    if pos < 0 || pos + 8 > b.len() {
        None
    } else if b.subrange(pos, pos + 4) == data_tag() {
        Some((pos + 8, read32(b, pos + 4)))
    } else if pos + 8 + declared_size(b, pos) > b.len() {
        None
    } else {
        data_chunk(b, pos + 8 + declared_size(b, pos))
    }
}

/// `b` starts as a RIFF/WAVE file with a format chunk.
pub open spec fn has_wave_tags(b: Seq<u8>) -> bool {
    b.subrange(0, 4) == riff_tag() && b.subrange(8, 12) == wave_tag() && b.subrange(12, 16)
        == fmt_tag()
}

/// What the header at the start of `b` tells, or why it cannot be read.
pub open spec fn header_of(b: Seq<u8>) -> Result<WavHeader, WavError> {
    if b.len() < HEADER_LEN {
        Err(WavError::TooShort)
    } else if !has_wave_tags(b) {
        Err(WavError::NotWav)
    } else {
        match data_chunk(b, 36) {
            Some(found) => Ok(
                WavHeader {
                    sample_rate: read32(b, 24),
                    num_channels: read16(b, 22),
                    bits_per_sample: read16(b, 34),
                    data_size: found.1,
                },
            ),
            None => Err(WavError::NoDataChunk),
        }
    }
}

fn get16(b: &Vec<u8>, at: usize) -> (r: u16)
    requires
        at + 2 <= b.len(),
    ensures
        r == read16(b@, at as int),
{
    b[at] as u16 + 256 * (b[at + 1] as u16)
}

fn get32(b: &Vec<u8>, at: usize) -> (r: u32)
    requires
        at + 4 <= b.len(),
    ensures
        r == read32(b@, at as int),
{
    b[at] as u32 + 256 * (b[at + 1] as u32) + 65536 * (b[at + 2] as u32) + 16777216 * (b[at
        + 3] as u32)
}

fn tag_at(b: &Vec<u8>, at: usize, t0: u8, t1: u8, t2: u8, t3: u8) -> (r: bool)
    requires
        at + 4 <= b.len(),
    ensures
        r == (b@.subrange(at as int, at + 4) == seq![t0, t1, t2, t3]),
{
    let same = b[at] == t0 && b[at + 1] == t1 && b[at + 2] == t2 && b[at + 3] == t3;
    proof {
        let s = b@.subrange(at as int, at + 4);
        let t = seq![t0, t1, t2, t3];
        if same {
            assert(s =~= t);
        } else {
            assert(s[0] == b@[at as int] && s[1] == b@[at + 1] && s[2] == b@[at + 2] && s[3] == b@[at
                + 3]);
            assert(t[0] == t0 && t[1] == t1 && t[2] == t2 && t[3] == t3);
        }
    }
    same
}

/// Finds the data chunk of a file whose chunks start at `from`.
pub fn find_data_chunk(b: &Vec<u8>, from: usize) -> (r: Option<(usize, u32)>)
    ensures
        match r {
            Some(found) => data_chunk(b@, from as int) == Some((found.0 as int, found.1))
                && found.0 <= b.len(),
            None => data_chunk(b@, from as int) is None,
        },
{
    let len: u64 = b.len() as u64;
    let mut pos: u64 = from as u64;
    while pos <= len && len - pos >= 8
        invariant
            len == b.len(),
            data_chunk(b@, from as int) == data_chunk(b@, pos as int),
        decreases len - pos,
    {
        let at: usize = pos as usize;
        let size: u32 = get32(b, at + 4);
        if tag_at(b, at, 0x64, 0x61, 0x74, 0x61) {
            return Some((at + 8, size));
        }
        if size as u64 > len - pos - 8 {
            return None;
        }
        pos = pos + 8 + size as u64;
    }
    None
}

/// Reads the header at the start of a file.
///
/// Fails on a file of less than 44 bytes, on one that does not carry the
/// tags `RIFF`, `WAVE` and `fmt ` in their places, and on one without a
/// data chunk after the format chunk.
pub fn read_wav_header(file: &Vec<u8>) -> (r: Result<WavHeader, WavError>)
    ensures
        r == header_of(file@),
{
    if file.len() < HEADER_LEN {
        return Err(WavError::TooShort);
    }
    if !(tag_at(file, 0, 0x52, 0x49, 0x46, 0x46) && tag_at(file, 8, 0x57, 0x41, 0x56, 0x45)
        && tag_at(file, 12, 0x66, 0x6d, 0x74, 0x20)) {
        return Err(WavError::NotWav);
    }
    match find_data_chunk(file, 36) {
        Some(found) => Ok(
            WavHeader {
                sample_rate: get32(file, 24),
                num_channels: get16(file, 22),
                bits_per_sample: get16(file, 34),
                data_size: found.1,
            },
        ),
        None => Err(WavError::NoDataChunk),
    }
}

/// Writing a header and reading it back yields the same sample rate,
/// channels, bits per sample and data size, whatever follows the header.
pub proof fn lemma_header_round_trip(h: WavHeader, data: Seq<u8>)
    ensures
        header_bytes(h).len() == HEADER_LEN,
        header_of(header_bytes(h) + data) == Ok::<WavHeader, WavError>(h),
{
    let hb = header_bytes(h);
    let b = hb + data;
    assert forall|i: int| 0 <= i < 44 implies b[i] == header_byte(h, i) by {
        assert(b[i] == hb[i]);
    }
    assert(b.subrange(0, 4) =~= riff_tag());
    assert(b.subrange(8, 12) =~= wave_tag());
    assert(b.subrange(12, 16) =~= fmt_tag());
    assert(b.subrange(36, 40) =~= data_tag());
    assert(read16(b, 22) == h.num_channels) by {
        assert(b[22] == header_byte(h, 22) && b[23] == header_byte(h, 23));
    }
    assert(read32(b, 24) == h.sample_rate) by {
        assert(b[24] == header_byte(h, 24) && b[25] == header_byte(h, 25) && b[26] == header_byte(
            h,
            26,
        ) && b[27] == header_byte(h, 27));
    }
    assert(read16(b, 34) == h.bits_per_sample) by {
        assert(b[34] == header_byte(h, 34) && b[35] == header_byte(h, 35));
    }
    assert(read32(b, 40) == h.data_size) by {
        assert(b[40] == header_byte(h, 40) && b[41] == header_byte(h, 41) && b[42] == header_byte(
            h,
            42,
        ) && b[43] == header_byte(h, 43));
    }
}

/// A recording of `data` written behind the header for its size declares
/// that size, which is the size of the file less the header.
pub proof fn lemma_recording_declares_its_size(h: WavHeader, data: Seq<u8>)
    requires
        h.data_size == data.len(),
    ensures
        (header_bytes(h) + data).len() - HEADER_LEN == data.len(),
        header_of(header_bytes(h) + data) matches Ok(read) && read.data_size == data.len(),
{
    lemma_header_round_trip(h, data);
}

/// The sample whose bytes, low byte first, stand at `at` in `b`: two bytes
/// or four, read as a signed number.
pub open spec fn sample_at(b: Seq<u8>, at: int, format: SampleFormat) -> i32 {
    match format {
        SampleFormat::S16 => {
            let raw = read16(b, at) as int;
            if raw >= 0x8000 {
                (raw - 0x1_0000) as i32
            } else {
                raw as i32
            }
        },
        SampleFormat::S32 => {
            let raw = read32(b, at) as int;
            if raw >= 0x8000_0000 {
                (raw - 0x1_0000_0000) as i32
            } else {
                raw as i32
            }
        },
    }
}

/// Number of whole frames of `channels` channels in `len` bytes.
pub open spec fn frames_in_bytes(len: int, channels: int, format: SampleFormat) -> int {
    if channels == 0 {
        0
    } else {
        len / (channels * format.width())
    }
}

/// Splits interleaved sample data into its channels. Bytes behind the
/// last whole frame are left out.
pub fn deinterleave(data: &Vec<u8>, channels: usize, format: SampleFormat) -> (r: Vec<Vec<i32>>)
    requires
        channels * 4 <= usize::MAX,
    ensures
        r@.len() == channels,
        forall|c: int|
            0 <= c < channels ==> (#[trigger] r@[c])@.len() == frames_in_bytes(
                data@.len() as int,
                channels as int,
                format,
            ),
        forall|c: int, i: int|
            0 <= c < channels && 0 <= i < frames_in_bytes(
                data@.len() as int,
                channels as int,
                format,
            ) ==> r@[c]@[i] == #[trigger] sample_at(
                data@,
                (i * channels + c) * format.width(),
                format,
            ),
{
    let width: usize = format.bytes_per_sample();
    let mut out: Vec<Vec<i32>> = Vec::new();
    if channels == 0 {
        return out;
    }
    assert(channels * width <= channels * 4) by (nonlinear_arith)
        requires
            0 < width <= 4,
            channels > 0,
    ;
    let frame: usize = channels * width;
    let frames: usize = data.len() / frame;
    assert(frames * frame <= data.len()) by {
        vstd::arithmetic::div_mod::lemma_fundamental_div_mod(data.len() as int, frame as int);
        assert(frame * frames == frames * frame) by (nonlinear_arith);
    }
    let mut c: usize = 0;
    while c < channels
        invariant
            c <= channels,
            width == format.width(),
            0 < width <= 4,
            frame == channels * width,
            frames == frames_in_bytes(data@.len() as int, channels as int, format),
            frames * frame <= data.len(),
            out@.len() == c,
            forall|k: int| 0 <= k < c ==> (#[trigger] out@[k])@.len() == frames,
            forall|k: int, i: int|
                0 <= k < c && 0 <= i < frames ==> out@[k]@[i] == #[trigger] sample_at(
                    data@,
                    (i * channels + k) * format.width(),
                    format,
                ),
        decreases channels - c,
    {
        let mut channel: Vec<i32> = Vec::new();
        let mut i: usize = 0;
        while i < frames
            invariant
                i <= frames,
                c < channels,
                width == format.width(),
                0 < width <= 4,
                frame == channels * width,
                frames * frame <= data.len(),
                channel@.len() == i,
                forall|k: int|
                    0 <= k < i ==> channel@[k] == #[trigger] sample_at(
                        data@,
                        (k * channels + c) * format.width(),
                        format,
                    ),
            decreases frames - i,
        {
            proof {
                assert((i * channels + c) * width + width <= frames * frame) by (nonlinear_arith)
                    requires
                        0 <= i < frames,
                        0 <= c < channels,
                        frame == channels * width,
                        width > 0,
                ;
            }
            let at: usize = (i * channels + c) * width;
            let value: i32 = match format {
                SampleFormat::S16 => {
                    let raw: u16 = get16(data, at);
                    if raw >= 0x8000 {
                        (raw as i32) - 0x1_0000
                    } else {
                        raw as i32
                    }
                },
                SampleFormat::S32 => {
                    let raw: u32 = get32(data, at);
                    if raw >= 0x8000_0000 {
                        ((raw as i64) - 0x1_0000_0000) as i32
                    } else {
                        raw as i32
                    }
                },
            };
            channel.push(value);
            i += 1;
        }
        out.push(channel);
        c += 1;
    }
    out
}

/// Where a segment lies in the bytes of a file: first byte and end,
/// exclusive. The segment starts `start_us` into the sample data and lasts
/// `duration_us`, both cut to whole frames, and ends with the file at the
/// latest.
pub open spec fn segment_bounds(
    h: WavHeader,
    data_start: int,
    file_len: int,
    start_us: int,
    duration_us: int,
) -> (int, int) {
    let frame = (h.bits_per_sample / 8) * h.num_channels;
    let from = data_start + start_us * h.sample_rate / 1_000_000 * frame;
    let to = from + duration_us * h.sample_rate / 1_000_000 * frame;
    if from >= file_len {
        (file_len, file_len)
    } else if to >= file_len {
        (from, file_len)
    } else {
        (from, to)
    }
}

/// Where the sample data of a file starts; 0 where it has none.
pub open spec fn data_start_of(file: Seq<u8>) -> int {
    match data_chunk(file, 36) {
        Some(found) => found.0,
        None => 0,
    }
}

/// The file that holds a segment of `file`: the header of `file` with the
/// size of the segment, and the bytes of the segment.
pub open spec fn segment_file(file: Seq<u8>, start_us: int, duration_us: int) -> Result<
    Seq<u8>,
    WavError,
> {
    match header_of(file) {
        Err(e) => Err(e),
        Ok(h) => {
            let bounds = segment_bounds(
                h,
                data_start_of(file),
                file.len() as int,
                start_us,
                duration_us,
            );
            Ok(
                header_bytes(
                    WavHeader {
                        sample_rate: h.sample_rate,
                        num_channels: h.num_channels,
                        bits_per_sample: h.bits_per_sample,
                        data_size: wrap32(bounds.1 - bounds.0),
                    },
                ) + file.subrange(bounds.0, bounds.1),
            )
        },
    }
}

/// Cuts a segment out of a recording and returns it as a file of its own.
/// Fails where the header of the recording cannot be read.
pub fn extract_wav_segment(file: &Vec<u8>, start_us: u64, duration_us: u64) -> (r: Result<
    Vec<u8>,
    WavError,
>)
    ensures
        match r {
            Ok(bytes) => segment_file(file@, start_us as int, duration_us as int) == Ok::<
                Seq<u8>,
                WavError,
            >(bytes@),
            Err(e) => segment_file(file@, start_us as int, duration_us as int) == Err::<
                Seq<u8>,
                WavError,
            >(e),
        },
{
    let h = match read_wav_header(file) {
        Ok(h) => h,
        Err(e) => {
            return Err(e);
        },
    };
    let data_start: usize = match find_data_chunk(file, 36) {
        Some(found) => found.0,
        None => {
            return Err(WavError::NoDataChunk);
        },
    };
    let len: u128 = file.len() as u128;
    let width: u128 = (h.bits_per_sample / 8) as u128;
    assert(width * h.num_channels <= 0x1fff * 0xffff) by (nonlinear_arith)
        requires
            0 <= width <= 0x1fff,
            0 <= h.num_channels <= 0xffff,
    ;
    let frame: u128 = width * h.num_channels as u128;
    assert(start_us * h.sample_rate <= 0xffff_ffff_ffff_ffff * 0xffff_ffff) by (nonlinear_arith)
        requires
            0 <= start_us <= 0xffff_ffff_ffff_ffff,
            0 <= h.sample_rate <= 0xffff_ffff,
    ;
    assert(duration_us * h.sample_rate <= 0xffff_ffff_ffff_ffff * 0xffff_ffff) by (nonlinear_arith)
        requires
            0 <= duration_us <= 0xffff_ffff_ffff_ffff,
            0 <= h.sample_rate <= 0xffff_ffff,
    ;
    let start_frames: u128 = start_us as u128 * h.sample_rate as u128 / 1_000_000;
    let duration_frames: u128 = duration_us as u128 * h.sample_rate as u128 / 1_000_000;
    assert(start_frames * frame <= 0xffff_ffff_ffff_ffff * 0xffff_ffff * (0x1fff * 0xffff))
        by (nonlinear_arith)
        requires
            0 <= start_frames <= 0xffff_ffff_ffff_ffff * 0xffff_ffff,
            0 <= frame <= 0x1fff * 0xffff,
    ;
    assert(duration_frames * frame <= 0xffff_ffff_ffff_ffff * 0xffff_ffff * (0x1fff * 0xffff))
        by (nonlinear_arith)
        requires
            0 <= duration_frames <= 0xffff_ffff_ffff_ffff * 0xffff_ffff,
            0 <= frame <= 0x1fff * 0xffff,
    ;
    let from: u128 = data_start as u128 + start_frames * frame;
    let to: u128 = from + duration_frames * frame;
    let (first, end): (usize, usize) = if from >= len {
        (file.len(), file.len())
    } else if to >= len {
        (from as usize, file.len())
    } else {
        (from as usize, to as usize)
    };
    let header = WavHeader {
        sample_rate: h.sample_rate,
        num_channels: h.num_channels,
        bits_per_sample: h.bits_per_sample,
        data_size: ((end - first) as u64 % 0x1_0000_0000) as u32,
    };
    let mut out = write_wav_header(&header);
    let mut i: usize = first;
    while i < end
        invariant
            first <= i <= end <= file.len(),
            out@ == header_bytes(header) + file@.subrange(first as int, i as int),
        decreases end - i,
    {
        out.push(file[i]);
        i += 1;
        assert(file@.subrange(first as int, i as int) == file@.subrange(first as int, i - 1).push(
            file@[i - 1],
        ));
        assert(out@ =~= header_bytes(header) + file@.subrange(first as int, i as int));
    }
    assert(file@.subrange(first as int, first as int) =~= Seq::<u8>::empty());
    Ok(out)
}

} // verus!
