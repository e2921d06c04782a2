//! The fingerprint service: what its answers mean and how its addresses
//! are put together.

use crate::json::JsonValue;
use crate::text::{append, append_str, chars_of, decimal, digits_of, string_of, to_ascii_upper, ascii_upper};
use crate::album_identifier::album_of;
use vstd::prelude::*;
use vstd::string::StringExecFns;

verus! {

/// What the service answered to a lookup.
#[derive(Clone, Debug)]
pub struct RecognizeResult {
    /// Title of the track, where one was recognised.
    pub title: Option<String>,
    /// Artist of the track.
    pub artist: Option<String>,
    /// Album of the track.
    pub album: Option<String>,
    /// Identifier of the track.
    pub track_id: Option<String>,
    /// Address of the cover art.
    pub cover_art: Option<String>,
}

/// The text of an optional string.
pub open spec fn text_of(s: Option<String>) -> Option<Seq<char>> {
    match s {
        Some(t) => Some(t@),
        None => None,
    }
}

/// The text of the member `key` of an optional value.
pub open spec fn text_in(v: Option<JsonValue>, key: Seq<char>) -> Option<Seq<char>> {
    match v {
        Some(obj) => obj.member_text(key),
        None => None,
    }
}

/// The album that the track of an answer names.
pub open spec fn album_in(track: Option<JsonValue>) -> Option<Seq<char>> {
    match track {
        Some(t) => album_of(t),
        None => None,
    }
}

/// The cover art that the track of an answer names.
pub open spec fn cover_in(track: Option<JsonValue>) -> Option<Seq<char>> {
    match track {
        Some(t) => text_in(t.member("images"@), "coverarthq"@),
        None => None,
    }
}

fn owned(s: Option<&str>) -> (r: Option<String>)
    ensures
        text_of(r) == crate::cuefile::text_of(s),
{
    match s {
        Some(t) => Some(String::from_str(t)),
        None => None,
    }
}

impl RecognizeResult {
    /// Tells whether a track was recognised.
    pub fn is_recognized(&self) -> (r: bool)
        ensures
            r == self.title is Some,
    {
        self.title.is_some()
    }

    /// Reads an answer of the service: title, artist, identifier, album and
    /// cover art of its track, as far as the answer holds them.
    pub fn from_json(raw: &JsonValue) -> (r: Self)
        ensures
            text_of(r.title) == text_in(raw.member("track"@), "title"@),
            text_of(r.artist) == text_in(raw.member("track"@), "subtitle"@),
            text_of(r.track_id) == text_in(raw.member("track"@), "key"@),
            text_of(r.album) == album_in(raw.member("track"@)),
            text_of(r.cover_art) == cover_in(raw.member("track"@)),
    {
        match raw.get("track") {
            Some(track) => {
                let cover = match track.get("images") {
                    Some(images) => owned(images.get_str("coverarthq")),
                    None => None,
                };
                let album = match crate::album_identifier::song_album(track) {
                    Some(a) => Some(a),
                    None => None,
                };
                RecognizeResult {
                    title: owned(track.get_str("title")),
                    artist: owned(track.get_str("subtitle")),
                    album,
                    track_id: owned(track.get_str("key")),
                    cover_art: cover,
                }
            },
            None => RecognizeResult {
                title: None,
                artist: None,
                album: None,
                track_id: None,
                cover_art: None,
            },
        }
    }

    /// How the answer is shown: artist and title, the title alone, or a
    /// note that nothing was recognised.
    pub open spec fn shown(&self) -> Seq<char> {
        match (self.title, self.artist) {
            (Some(t), Some(a)) => a@ + " \u{2014} "@ + t@,
            (Some(t), None) => t@,
            _ => "(not recognized)"@,
        }
    }

    /// Returns the answer as a line of text.
    pub fn describe(&self) -> (r: String)
        ensures
            r@ == self.shown(),
    {
        match (&self.title, &self.artist) {
            (Some(t), Some(a)) => {
                let mut out = a.clone();
                out.append(" \u{2014} ");
                out.append(t.as_str());
                out
            },
            (Some(t), None) => t.clone(),
            _ => String::from_str("(not recognized)"),
        }
    }
}

/// What a character becomes in a query.
pub open spec fn escaped_char(c: char) -> Seq<char> {
    if c == '%' {
        "%25"@
    } else if c == ' ' {
        "%20"@
    } else if c == '&' {
        "%26"@
    } else if c == '=' {
        "%3D"@
    } else if c == '+' {
        "%2B"@
    } else if c == '#' {
        "%23"@
    } else {
        seq![c]
    }
}

/// `s[..upto]` as it stands in a query.
pub open spec fn escaped(s: Seq<char>, upto: int) -> Seq<char>
    decreases upto,
{
    if upto <= 0 {
        Seq::empty()
    } else {
        escaped(s, upto - 1) + escaped_char(s[upto - 1])
    }
}

/// Escapes a text for a query: percent signs, spaces, ampersands, equal
/// signs, plus signs and hash signs are written in hexadecimal.
pub fn urlencoding(s: &str) -> (r: String)
    ensures
        r@ == escaped(s@, s@.len() as int),
{
    let chars = chars_of(s);
    let mut out: Vec<char> = Vec::new();
    let mut i: usize = 0;
    while i < chars.len()
        invariant
            i <= chars.len(),
            out@ == escaped(chars@, i as int),
        decreases chars.len() - i,
    {
        let c = chars[i];
        if c == '%' {
            append_str(&mut out, "%25");
        } else if c == ' ' {
            append_str(&mut out, "%20");
        } else if c == '&' {
            append_str(&mut out, "%26");
        } else if c == '=' {
            append_str(&mut out, "%3D");
        } else if c == '+' {
            append_str(&mut out, "%2B");
        } else if c == '#' {
            append_str(&mut out, "%23");
        } else {
            out.push(c);
            assert(out@ =~= escaped(chars@, i as int) + seq![c]);
        }
        i += 1;
    }
    string_of(&out)
}

/// `Uuid::new_v4` of `uuid`, as text: a fresh random identifier. Nothing
/// is promised of it.
#[verifier::external_body]
fn new_uuid() -> String {
    uuid::Uuid::new_v4().to_string()
}

/// `SliceRandom::choose` of `rand`, with the generator of the thread: one
/// of the items, picked at random; nothing for an empty list.
#[verifier::external_body]
fn pick_one(items: &Vec<&'static str>) -> (r: Option<&'static str>)
    ensures
        match r {
            Some(s) => items@.contains(s),
            None => items@.len() == 0,
        },
{
    rand::seq::SliceRandom::choose(items.as_slice(), &mut rand::thread_rng()).copied()
}

/// The kinds of device that a lookup can claim to come from.
pub fn devices() -> (r: Vec<&'static str>)
    ensures
        r@ == seq!["iphone", "android", "web"],
{
    let mut v: Vec<&'static str> = Vec::new();
    v.push("iphone");
    v.push("android");
    v.push("web");
    assert(v@ =~= seq!["iphone", "android", "web"]);
    v
}

/// Picks the kind of device for a lookup: one of the known kinds.
pub fn pick_device() -> (r: &'static str)
    ensures
        devices_spec().contains(r),
{
    let all = devices();
    match pick_one(&all) {
        Some(d) => d,
        None => "web",
    }
}

/// The known kinds of device.
pub open spec fn devices_spec() -> Seq<&'static str> {
    seq!["iphone", "android", "web"]
}

/// `s[..upto]` with its ASCII letters in upper case.
pub open spec fn upper(s: Seq<char>) -> Seq<char> {
    Seq::new(s.len(), |i: int| ascii_upper(s[i]))
}

fn to_upper(s: &str) -> (r: String)
    ensures
        r@ == upper(s@),
{
    let chars = chars_of(s);
    let mut out: Vec<char> = Vec::new();
    let mut i: usize = 0;
    while i < chars.len()
        invariant
            i <= chars.len(),
            out@.len() == i,
            forall|k: int| 0 <= k < i ==> out@[k] == ascii_upper(chars@[k]),
        decreases chars.len() - i,
    {
        out.push(to_ascii_upper(chars[i]));
        i += 1;
    }
    assert(out@ =~= upper(chars@));
    string_of(&out)
}

/// The address to which a fingerprint is sent.
pub open spec fn recognize_address(
    language: Seq<char>,
    country: Seq<char>,
    device: Seq<char>,
    first: Seq<char>,
    second: Seq<char>,
) -> Seq<char> {
    "https://amp.shazam.com/discovery/v5/"@ + language + "/"@ + country + "/"@ + device
        + "/-/tag/"@ + upper(first) + "/"@ + upper(second)
        + "?sync=true&webv3=true&sampling=true&connected=&shazamapiversion=v3&sharehub=true&hubv5minorversion=v5.1&hidelb=true&video=v3"@
}

/// Puts together the address to which a fingerprint is sent, from the
/// language, the country, the kind of device and two identifiers, which
/// are written in upper case.
pub fn recognize_url_for(language: &str, country: &str, device: &str, first: &str, second: &str) -> (r:
    String)
    ensures
        r@ == recognize_address(language@, country@, device@, first@, second@),
{
    let mut out = String::from_str("https://amp.shazam.com/discovery/v5/");
    out.append(language);
    out.append("/");
    out.append(country);
    out.append("/");
    out.append(device);
    out.append("/-/tag/");
    let a = to_upper(first);
    out.append(a.as_str());
    out.append("/");
    let b = to_upper(second);
    out.append(b.as_str());
    out.append(
        "?sync=true&webv3=true&sampling=true&connected=&shazamapiversion=v3&sharehub=true&hubv5minorversion=v5.1&hidelb=true&video=v3",
    );
    out
}

/// Puts together the address for one lookup: for a device picked at
/// random and two fresh identifiers.
pub fn recognize_url(language: &str, country: &str) -> (r: String)
    ensures
        exists|device: &'static str, first: Seq<char>, second: Seq<char>|
            devices_spec().contains(device) && r@ == #[trigger] recognize_address(
                language@,
                country@,
                device@,
                first,
                second,
            ),
{
    let device = pick_device();
    let first = new_uuid();
    let second = new_uuid();
    let url = recognize_url_for(language, country, device, first.as_str(), second.as_str());
    assert(url@ == recognize_address(language@, country@, device@, first@, second@));
    url
}

/// The address that tells about a track.
pub open spec fn track_address(language: Seq<char>, country: Seq<char>, track_id: Seq<char>) -> Seq<
    char,
> {
    "https://www.shazam.com/discovery/v5/"@ + language + "/"@ + country + "/web/-/track/"@
        + track_id + "?shazamapiversion=v3&video=v3"@
}

/// Puts together the address that tells about a track.
pub fn track_about_url(language: &str, country: &str, track_id: &str) -> (r: String)
    ensures
        r@ == track_address(language@, country@, track_id@),
{
    let mut out = String::from_str("https://www.shazam.com/discovery/v5/");
    out.append(language);
    out.append("/");
    out.append(country);
    out.append("/web/-/track/");
    out.append(track_id);
    out.append("?shazamapiversion=v3&video=v3");
    out
}

/// The address of a search for tracks.
pub open spec fn search_address(
    language: Seq<char>,
    country: Seq<char>,
    query: Seq<char>,
    limit: nat,
    offset: nat,
) -> Seq<char> {
    "https://www.shazam.com/services/search/v3/"@ + language + "/"@ + country
        + "/web/search?query="@ + escaped(query, query.len() as int) + "&numResults="@ + digits_of(
        limit,
    ) + "&offset="@ + digits_of(offset) + "&types=songs"@
}

/// Puts together the address of a search for tracks.
pub fn search_track_url(language: &str, country: &str, query: &str, limit: u32, offset: u32) -> (r:
    String)
    ensures
        r@ == search_address(language@, country@, query@, limit as nat, offset as nat),
{
    let mut out: Vec<char> = Vec::new();
    append_str(&mut out, "https://www.shazam.com/services/search/v3/");
    assert(out@ =~= "https://www.shazam.com/services/search/v3/"@);
    append_str(&mut out, language);
    append_str(&mut out, "/");
    append_str(&mut out, country);
    append_str(&mut out, "/web/search?query=");
    let q = urlencoding(query);
    append_str(&mut out, q.as_str());
    append_str(&mut out, "&numResults=");
    let l = decimal(limit as u64);
    append(&mut out, &l);
    append_str(&mut out, "&offset=");
    let o = decimal(offset as u64);
    append(&mut out, &o);
    append_str(&mut out, "&types=songs");
    string_of(&out)
}

} // verus!
