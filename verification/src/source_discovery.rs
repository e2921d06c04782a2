//! Reading the listings from which audio sources are offered: the capture
//! devices that `arecord -l` prints, and the audio files among the paths of
//! a directory.

use crate::audio_stream::{names_audio_file, AudioSource};
use crate::cuefile::{last_index_of, rfind_char};
use crate::text::{
    chars_of, decimal, digits_of, ends_with, find_char, has_prefix, index_of, index_of_text,
    parse_number, parsed_number, pieces_of, slice_of, split_on, starts_with, string_of, text_index,
    texts_of, to_lowercase,
};
use vstd::prelude::*;
use vstd::string::StringExecFns;

verus! {

/// The number that `s` writes: decimal digits, a plus sign before them or
/// none, with a value that fits 32 bits.
pub open spec fn read_number(s: Seq<char>) -> Option<u32> {
    match parsed_number(s) {
        Some(n) => if n <= u32::MAX {
            Some(n as u32)
        } else {
            None
        },
        None => None,
    }
}

fn number_in(s: &Vec<char>) -> (r: Option<u32>)
    ensures
        r == read_number(s@),
{
    match parse_number(s) {
        Some(n) => if n <= u32::MAX as u64 {
            Some(n as u32)
        } else {
            None
        },
        None => None,
    }
}

/// The number that stands in `line` between the first `word` and the colon
/// that follows it.
pub open spec fn number_after(line: Seq<char>, word: Seq<char>) -> Option<u32> {
    let at = text_index(line, word, 0);
    let colon = index_of(line, ':', at);
    if at < line.len() && at + word.len() <= colon < line.len() {
        read_number(line.subrange(at + word.len(), colon))
    } else {
        None
    }
}

fn find_number_after(line: &Vec<char>, word: &str) -> (r: Option<u32>)
    ensures
        r == number_after(line@, word@),
{
    let wanted = chars_of(word);
    let at: usize = index_of_text(line, &wanted);
    if at >= line.len() {
        return None;
    }
    let colon: usize = find_char(line, ':', at);
    if colon >= line.len() || colon - at < wanted.len() {
        return None;
    }
    let part = slice_of(line, at + wanted.len(), colon);
    number_in(&part)
}

/// The card and the device that a line of the listing names: it starts
/// with `card`, and holds a number between `card ` and the next colon and
/// one between `device ` and the next colon.
pub open spec fn alsa_device_in(line: Seq<char>) -> Option<(u32, u32)> {
    if !has_prefix(line, "card"@) {
        None
    } else {
        match (number_after(line, "card "@), number_after(line, "device "@)) {
            (Some(card), Some(device)) => Some((card, device)),
            _ => None,
        }
    }
}

/// What stands in `line` between its last opening bracket and the closing
/// bracket that follows it.
pub open spec fn bracketed(line: Seq<char>) -> Option<Seq<char>> {
    let open = last_index_of(line, '[', line.len() as int);
    let close = index_of(line, ']', open);
    if 0 <= open && close < line.len() {
        Some(line.subrange(open + 1, close))
    } else {
        None
    }
}

proof fn lemma_last_index_holds(s: Seq<char>, c: char, upto: int)
    ensures
        last_index_of(s, c, upto) >= 0 ==> s[last_index_of(s, c, upto)] == c,
    decreases upto,
{
    if 0 < upto <= s.len() && s[upto - 1] != c {
        lemma_last_index_holds(s, c, upto - 1);
    }
}

fn find_bracketed(line: &Vec<char>) -> (r: Option<String>)
    ensures
        match r {
            Some(text) => bracketed(line@) == Some(text@),
            None => bracketed(line@) is None,
        },
{
    match rfind_char(line, '[') {
        Some(open) => {
            let close: usize = find_char(line, ']', open);
            proof {
                lemma_last_index_holds(line@, '[', line@.len() as int);
            }
            if close < line.len() {
                let inner = slice_of(line, open + 1, close);
                Some(string_of(&inner))
            } else {
                None
            }
        },
        None => None,
    }
}

/// The address of the device `device` on the card `card`.
pub open spec fn alsa_address(card: u32, device: u32) -> Seq<char> {
    "alsa:hw:"@ + digits_of(card as nat) + ","@ + digits_of(device as nat)
}

/// The source that a line of the listing describes.
pub open spec fn describes(source: AudioSource, line: Seq<char>) -> bool {
    &&& alsa_device_in(line) matches Some(numbers)
    &&& source.backend@ == "alsa"@
    &&& source.url@ == alsa_address(numbers.0, numbers.1)
    &&& match source.description {
        Some(text) => bracketed(line) == Some(text@),
        None => bracketed(line) is None,
    }
}

/// Reads one line of the listing of capture devices. A line such as
/// `card 0: PCH [HDA Intel PCH], device 0: ALC269VC Analog [ALC269VC Analog]`
/// gives the source `alsa:hw:0,0`, described by what stands in the last
/// pair of brackets; a line that names no card and device gives nothing.
pub fn parse_arecord_line(line: &str) -> (r: Option<AudioSource>)
    ensures
        r is Some <==> alsa_device_in(line@) is Some,
        r matches Some(source) ==> describes(source, line@),
{
    let chars = chars_of(line);
    let card_word = chars_of("card");
    if !starts_with(&chars, &card_word) {
        return None;
    }
    let card: u32 = match find_number_after(&chars, "card ") {
        Some(n) => n,
        None => {
            return None;
        },
    };
    let device: u32 = match find_number_after(&chars, "device ") {
        Some(n) => n,
        None => {
            return None;
        },
    };
    let mut url = String::from_str("alsa:hw:");
    let card_text = string_of(&decimal(card as u64));
    url.append(card_text.as_str());
    url.append(",");
    let device_text = string_of(&decimal(device as u64));
    url.append(device_text.as_str());
    Some(AudioSource { backend: String::from_str("alsa"), url, description: find_bracketed(&chars) })
}

/// The source is the default device.
pub open spec fn is_default_device(source: AudioSource) -> bool {
    &&& source.backend@ == "alsa"@
    &&& source.url@ == "alsa:default"@
    &&& source.description matches Some(text)
    &&& text@ == "Default ALSA device"@
}

/// `sources[1..]` are the sources that the lines `lines[..upto]` describe,
/// in the order of the lines.
pub open spec fn lists_devices(sources: Seq<AudioSource>, lines: Seq<Seq<char>>, upto: int) -> bool
    decreases upto,
{
    if upto <= 0 {
        sources.len() == 1
    } else if alsa_device_in(lines[upto - 1]) is Some {
        &&& sources.len() >= 2
        &&& describes(sources[sources.len() - 1], lines[upto - 1])
        &&& lists_devices(sources.drop_last(), lines, upto - 1)
    } else {
        lists_devices(sources, lines, upto - 1)
    }
}

/// Reads the listing of capture devices that `arecord -l` prints. The
/// default device comes first; then one source for each line that names a
/// card and a device, in the order of the lines.
pub fn discover_alsa_sources(listing: &str) -> (r: Vec<AudioSource>)
    ensures
        r@.len() >= 1,
        is_default_device(r@[0]),
        lists_devices(r@, pieces_of(listing@, '\n'), pieces_of(listing@, '\n').len() as int),
{
    let chars = chars_of(listing);
    let lines = split_on(&chars, '\n');
    let mut out: Vec<AudioSource> = Vec::new();
    out.push(
        AudioSource {
            backend: String::from_str("alsa"),
            url: String::from_str("alsa:default"),
            description: Some(String::from_str("Default ALSA device")),
        },
    );
    let mut i: usize = 0;
    while i < lines.len()
        invariant
            i <= lines.len(),
            texts_of(lines@) == pieces_of(listing@, '\n'),
            out@.len() >= 1,
            is_default_device(out@[0]),
            lists_devices(out@, texts_of(lines@), i as int),
        decreases lines.len() - i,
    {
        let line = string_of(&lines[i]);
        assert(texts_of(lines@)[i as int] == lines@[i as int]@);
        let ghost before = out@;
        match parse_arecord_line(line.as_str()) {
            Some(source) => {
                out.push(source);
                assert(out@.drop_last() =~= before);
            },
            None => {},
        }
        i += 1;
    }
    out
}

/// The name of the file that `path` leads to: what follows its last slash.
pub open spec fn file_name_of(path: Seq<char>) -> Seq<char> {
    path.subrange(last_index_of(path, '/', path.len() as int) + 1, path.len() as int)
}

/// The source offered for the audio file at `path`.
pub open spec fn offers_file(source: AudioSource, path: Seq<char>) -> bool {
    &&& source.backend@ == "file"@
    &&& source.url@ == "file:"@ + path
    &&& source.description matches Some(text)
    &&& text@ == "Audio file: "@ + file_name_of(path)
}

/// Offers the file at `path` as a source where its name ends in `.wav`,
/// `.mp3` or `.flac`, in upper or lower case.
pub fn file_source(path: &str) -> (r: Option<AudioSource>)
    ensures
        r is Some <==> names_audio_file(path@),
        r matches Some(source) ==> offers_file(source, path@),
{
    let lowered = to_lowercase(path);
    let lower = chars_of(lowered.as_str());
    let wav = chars_of(".wav");
    let mp3 = chars_of(".mp3");
    let flac = chars_of(".flac");
    if !(ends_with(&lower, &wav) || ends_with(&lower, &mp3) || ends_with(&lower, &flac)) {
        return None;
    }
    let chars = chars_of(path);
    let from: usize = match rfind_char(&chars, '/') {
        Some(slash) => slash + 1,
        None => 0,
    };
    let name = slice_of(&chars, from, chars.len());
    let mut url = String::from_str("file:");
    url.append(path);
    let mut description = String::from_str("Audio file: ");
    let name_text = string_of(&name);
    description.append(name_text.as_str());
    Some(AudioSource { backend: String::from_str("file"), url, description: Some(description) })
}

/// `sources` are the sources for the audio files among `paths[..upto]`, in
/// the order of the paths.
pub open spec fn lists_files(sources: Seq<AudioSource>, paths: Seq<String>, upto: int) -> bool
    decreases upto,
{
    if upto <= 0 {
        sources.len() == 0
    } else if names_audio_file(paths[upto - 1]@) {
        &&& sources.len() >= 1
        &&& offers_file(sources[sources.len() - 1], paths[upto - 1]@)
        &&& lists_files(sources.drop_last(), paths, upto - 1)
    } else {
        lists_files(sources, paths, upto - 1)
    }
}

/// Offers the audio files among the paths of a directory as sources, in
/// the order of the paths.
pub fn discover_file_sources(paths: &Vec<String>) -> (r: Vec<AudioSource>)
    ensures
        lists_files(r@, paths@, paths@.len() as int),
{
    let mut out: Vec<AudioSource> = Vec::new();
    let mut i: usize = 0;
    while i < paths.len()
        invariant
            i <= paths.len(),
            lists_files(out@, paths@, i as int),
        decreases paths.len() - i,
    {
        let ghost before = out@;
        match file_source(paths[i].as_str()) {
            Some(source) => {
                out.push(source);
                assert(out@.drop_last() =~= before);
            },
            None => {},
        }
        i += 1;
    }
    out
}

} // verus!
