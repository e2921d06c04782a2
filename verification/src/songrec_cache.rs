//! The cache of fingerprint lookups: one line per response, keyed by a
//! hash of the audio that was looked up.
//!
//! A line is the key, a space, and the response on a single line. The file
//! is only ever appended to. A line that lacks its line feed, as a crash in
//! the middle of a write leaves it, is not read; of two lines with one key
//! the later one counts.

use crate::text::{
    append, append_str, chars_of, find_char, index_of, pieces_from, pieces_of, same_chars, slice_of,
    split_on, string_of, texts_of,
};
use vstd::prelude::*;

verus! {

/// Start value of the hash.
pub const FNV_OFFSET: u64 = 0xcbf29ce484222325;

/// Multiplier of the hash.
pub const FNV_PRIME: u64 = 0x100000001b3;

/// The 64-bit FNV-1a hash of `data[..upto]`: for every byte, the hash so
/// far is combined with the byte by exclusive or and multiplied by the
/// prime, modulo 2^64.
pub open spec fn fnv1a(data: Seq<u8>, upto: int) -> u64
    decreases upto,
{
    if upto <= 0 {
        FNV_OFFSET
    } else {
        (((fnv1a(data, upto - 1) ^ (data[upto - 1] as u64)) * FNV_PRIME) % 0x1_0000_0000_0000_0000) as u64
    }
}

/// The character of the hexadecimal digit `d`, in lower case.
pub open spec fn hex_digit(d: int) -> char {
    if d < 10 {
        ((d + 48) as u8) as char
    } else {
        ((d + 87) as u8) as char
    }
}

/// The last `digits` hexadecimal digits of `n`.
pub open spec fn hex_of(n: nat, digits: nat) -> Seq<char>
    decreases digits,
{
    if digits == 0 {
        Seq::empty()
    } else {
        hex_of(n / 16, (digits - 1) as nat).push(hex_digit((n % 16) as int))
    }
}

/// The key for a piece of audio: its hash in 16 hexadecimal digits.
pub open spec fn key_of(data: Seq<u8>) -> Seq<char> {
    hex_of(fnv1a(data, data.len() as int) as nat, 16)
}

fn hex(n: u64, digits: usize) -> (r: Vec<char>)
    ensures
        r@ == hex_of(n as nat, digits as nat),
    decreases digits,
{
    if digits == 0 {
        Vec::new()
    } else {
        let mut out = hex(n / 16, digits - 1);
        let d: u8 = (n % 16) as u8;
        let c: char = if d < 10 { (d + 48) as char } else { (d + 87) as char };
        out.push(c);
        out
    }
}

/// Hashes bytes with 64-bit FNV-1a and writes the hash in 16 hexadecimal
/// digits.
pub fn hash_bytes(data: &Vec<u8>) -> (r: String)
    ensures
        r@ == key_of(data@),
{
    let mut h: u64 = FNV_OFFSET;
    let mut i: usize = 0;
    while i < data.len()
        invariant
            i <= data.len(),
            h == fnv1a(data@, i as int),
        decreases data.len() - i,
    {
        let mixed: u64 = h ^ (data[i] as u64);
        assert(mixed * FNV_PRIME <= 0xffff_ffff_ffff_ffff * 0x100000001b3) by (nonlinear_arith)
            requires
                0 <= mixed <= 0xffff_ffff_ffff_ffff,
                FNV_PRIME == 0x100000001b3,
        ;
        h = ((mixed as u128 * FNV_PRIME as u128) % 0x1_0000_0000_0000_0000) as u64;
        i += 1;
    }
    let digits = hex(h, 16);
    string_of(&digits)
}

/// Returns the key under which the response for `data` is cached.
pub fn cache_key(data: &Vec<u8>) -> (r: String)
    ensures
        r@ == key_of(data@),
{
    hash_bytes(data)
}

/// `json[..upto]` on a single line: every line feed turned into a space,
/// every carriage return left out.
pub open spec fn single_line(json: Seq<char>, upto: int) -> Seq<char>
    decreases upto,
{
    if upto <= 0 {
        Seq::empty()
    } else if json[upto - 1] == '\n' {
        single_line(json, upto - 1).push(' ')
    } else if json[upto - 1] == '\r' {
        single_line(json, upto - 1)
    } else {
        single_line(json, upto - 1).push(json[upto - 1])
    }
}

/// The line that caches `json` under `key`.
pub open spec fn cache_line(key: Seq<char>, json: Seq<char>) -> Seq<char> {
    key + " "@ + single_line(json, json.len() as int) + "\n"@
}

/// Returns the line to append to the cache for the response `json` under
/// `key`.
pub fn append_to_cache(key: &str, json: &str) -> (r: String)
    ensures
        r@ == cache_line(key@, json@),
{
    let text = chars_of(json);
    let mut one_line: Vec<char> = Vec::new();
    let mut i: usize = 0;
    while i < text.len()
        invariant
            i <= text.len(),
            one_line@ == single_line(text@, i as int),
        decreases text.len() - i,
    {
        let c = text[i];
        if c == '\n' {
            one_line.push(' ');
        } else if c != '\r' {
            one_line.push(c);
        }
        i += 1;
    }
    let mut out = chars_of(key);
    append_str(&mut out, " ");
    append(&mut out, &one_line);
    append_str(&mut out, "\n");
    string_of(&out)
}

/// Key and response of a line: what stands before and after its first
/// space. A line without a space holds no entry.
pub open spec fn entry_of(line: Seq<char>) -> Option<(Seq<char>, Seq<char>)> {
    let space = index_of(line, ' ', 0);
    if space < line.len() {
        Some((line.subrange(0, space), line.subrange(space + 1, line.len() as int)))
    } else {
        None
    }
}

/// The entries of the lines `lines[..upto]`, in their order.
pub open spec fn entries_of(lines: Seq<Seq<char>>, upto: int) -> Seq<(Seq<char>, Seq<char>)>
    decreases upto,
{
    if upto <= 0 {
        Seq::empty()
    } else {
        match entry_of(lines[upto - 1]) {
            Some(e) => entries_of(lines, upto - 1).push(e),
            None => entries_of(lines, upto - 1),
        }
    }
}

/// The complete lines of a file: what stands before each of its line
/// feeds.
pub open spec fn complete_lines(contents: Seq<char>) -> Seq<Seq<char>> {
    pieces_of(contents, '\n').drop_last()
}

/// The entries that a cache file holds.
pub open spec fn cache_entries(contents: Seq<char>) -> Seq<(Seq<char>, Seq<char>)> {
    entries_of(complete_lines(contents), complete_lines(contents).len() as int)
}

/// The entries of a cache as texts.
pub open spec fn entry_texts(cache: Seq<(String, String)>) -> Seq<(Seq<char>, Seq<char>)> {
    cache.map_values(|e: (String, String)| (e.0@, e.1@))
}

/// Reads the entries of a cache file.
pub fn load_cache(contents: &str) -> (r: Vec<(String, String)>)
    ensures
        entry_texts(r@) == cache_entries(contents@),
{
    let text = chars_of(contents);
    let lines = split_on(&text, '\n');
    let ghost all = pieces_of(contents@, '\n');
    let count: usize = lines.len() - 1;
    assert(all.drop_last().len() == count);
    let mut out: Vec<(String, String)> = Vec::new();
    assert(entry_texts(out@) =~= Seq::empty());
    let mut i: usize = 0;
    while i < count
        invariant
            i <= count,
            count == lines.len() - 1,
            texts_of(lines@) == all,
            entry_texts(out@) == entries_of(all.drop_last(), i as int),
        decreases count - i,
    {
        assert(texts_of(lines@)[i as int] == lines@[i as int]@);
        assert(all.drop_last()[i as int] == all[i as int]);
        let line = &lines[i];
        let space = find_char(line, ' ', 0);
        let ghost before = entry_texts(out@);
        if space < line.len() {
            let key = slice_of(line, 0, space);
            let value = slice_of(line, space + 1, line.len());
            let entry = (string_of(&key), string_of(&value));
            out.push(entry);
            assert(entry_texts(out@) =~= before.push((key@, value@)));
        }
        i += 1;
    }
    out
}

/// The response cached under `key` among `entries[..upto]`: that of the
/// last entry with this key.
pub open spec fn cached(entries: Seq<(Seq<char>, Seq<char>)>, key: Seq<char>, upto: int) -> Option<
    Seq<char>,
>
    decreases upto,
{
    if upto <= 0 {
        None
    } else if entries[upto - 1].0 == key {
        Some(entries[upto - 1].1)
    } else {
        cached(entries, key, upto - 1)
    }
}

/// Looks up the response cached under `key`.
pub fn lookup_key(cache: &Vec<(String, String)>, key: &str) -> (r: Option<String>)
    ensures
        match r {
            Some(v) => cached(entry_texts(cache@), key@, cache@.len() as int) == Some(v@),
            None => cached(entry_texts(cache@), key@, cache@.len() as int) is None,
        },
{
    let wanted = chars_of(key);
    let mut upto: usize = cache.len();
    while upto > 0
        invariant
            upto <= cache.len(),
            wanted@ == key@,
            cached(entry_texts(cache@), key@, cache@.len() as int) == cached(
                entry_texts(cache@),
                key@,
                upto as int,
            ),
        decreases upto,
    {
        assert(entry_texts(cache@)[upto - 1] == (cache@[upto - 1].0@, cache@[upto - 1].1@));
        let candidate = chars_of(cache[upto - 1].0.as_str());
        if same_chars(&candidate, &wanted) {
            return Some(cache[upto - 1].1.clone());
        }
        upto -= 1;
    }
    None
}

/// Looks up the response cached for a piece of audio.
pub fn lookup(data: &Vec<u8>, cache: &Vec<(String, String)>) -> (r: Option<String>)
    ensures
        match r {
            Some(v) => cached(entry_texts(cache@), key_of(data@), cache@.len() as int) == Some(
                v@,
            ),
            None => cached(entry_texts(cache@), key_of(data@), cache@.len() as int) is None,
        },
{
    let key = hash_bytes(data);
    lookup_key(cache, key.as_str())
}

/// `s` holds no `c`.
pub open spec fn free_of(s: Seq<char>, c: char) -> bool {
    forall|i: int| 0 <= i < s.len() ==> #[trigger] s[i] != c
}

/// A text that ends in the separator is cut where it ends: behind it the
/// pieces of what follows start afresh.
pub proof fn lemma_pieces_of_appended(
    a: Seq<char>,
    b: Seq<char>,
    sep: char,
    from: int,
    current: Seq<char>,
)
    requires
        0 <= from <= a.len(),
        a.len() > 0 ==> a[a.len() - 1] == sep,
        from == a.len() ==> current.len() == 0,
    ensures
        pieces_from(a + b, sep, from, current) == pieces_from(a, sep, from, current).drop_last()
            + pieces_of(b, sep),
    decreases a.len() - from,
{
    let ab = a + b;
    if from == a.len() {
        assert(current =~= Seq::<char>::empty());
        lemma_pieces_shifted(a, b, sep, 0, current);
        assert(pieces_from(a, sep, from, current) == seq![current]);
        assert(seq![current].drop_last() + pieces_of(b, sep) =~= pieces_of(b, sep));
    } else {
        assert(ab[from] == a[from]);
        if a[from] == sep {
            lemma_pieces_of_appended(a, b, sep, from + 1, Seq::empty());
            let rest_a = pieces_from(a, sep, from + 1, Seq::empty());
            lemma_pieces_nonempty(a, sep, from + 1, Seq::empty());
            assert((seq![current] + rest_a).drop_last() =~= seq![current] + rest_a.drop_last());
            assert(seq![current] + (rest_a.drop_last() + pieces_of(b, sep)) =~= (seq![current]
                + rest_a.drop_last()) + pieces_of(b, sep));
        } else {
            lemma_pieces_of_appended(a, b, sep, from + 1, current.push(a[from]));
        }
    }
}

/// Reading on from the end of `a` in `a + b` is reading `b`.
proof fn lemma_pieces_shifted(a: Seq<char>, b: Seq<char>, sep: char, at: int, current: Seq<char>)
    requires
        0 <= at <= b.len(),
    ensures
        pieces_from(a + b, sep, a.len() + at, current) == pieces_from(b, sep, at, current),
    decreases b.len() - at,
{
    let ab = a + b;
    assert(ab.len() == a.len() + b.len());
    if at < b.len() {
        assert(ab[a.len() + at] == b[at]);
        if b[at] == sep {
            lemma_pieces_shifted(a, b, sep, at + 1, Seq::empty());
        } else {
            lemma_pieces_shifted(a, b, sep, at + 1, current.push(b[at]));
        }
    }
}

/// A text always has a piece.
pub proof fn lemma_pieces_nonempty(s: Seq<char>, sep: char, from: int, current: Seq<char>)
    requires
        0 <= from <= s.len(),
    ensures
        pieces_from(s, sep, from, current).len() >= 1,
    decreases s.len() - from,
{
    if from < s.len() {
        if s[from] == sep {
            lemma_pieces_nonempty(s, sep, from + 1, Seq::empty());
        } else {
            lemma_pieces_nonempty(s, sep, from + 1, current.push(s[from]));
        }
    }
}

/// A response on a single line holds no line feed.
pub proof fn lemma_single_line_is_one_line(json: Seq<char>, upto: int)
    requires
        0 <= upto <= json.len(),
    ensures
        free_of(single_line(json, upto), '\n'),
    decreases upto,
{
    if upto > 0 {
        lemma_single_line_is_one_line(json, upto - 1);
    }
}

/// Caching a response and looking its key up again yields the response,
/// on a single line, whatever the cache held before.
///
/// This holds for a cache of complete lines and a key without a space or
/// a line feed, as every key of sixteen hexadecimal digits is.
pub proof fn lemma_cached_response_is_found(contents: Seq<char>, key: Seq<char>, json: Seq<char>)
    requires
        contents.len() > 0 ==> contents[contents.len() - 1] == '\n',
        free_of(key, ' '),
        free_of(key, '\n'),
    ensures
        cached(
            cache_entries(contents + cache_line(key, json)),
            key,
            cache_entries(contents + cache_line(key, json)).len() as int,
        ) == Some(single_line(json, json.len() as int)),
{
    let value = single_line(json, json.len() as int);
    let body = key + " "@ + value;
    let line = cache_line(key, json);
    reveal_strlit(" ");
    reveal_strlit("\n");
    assert(line =~= body.push('\n'));
    lemma_single_line_is_one_line(json, json.len() as int);
    // The pieces of the new line: its body, and nothing behind the line feed.
    assert(pieces_of(line, '\n') == seq![body, Seq::<char>::empty()]) by {
        lemma_line_pieces(body, 0, Seq::empty());
        assert(Seq::<char>::empty() + body.subrange(0, body.len() as int) =~= body);
    }
    lemma_pieces_of_appended(contents, line, '\n', 0, Seq::empty());
    let old_lines = complete_lines(contents);
    let new_lines = complete_lines(contents + line);
    lemma_pieces_nonempty(contents, '\n', 0, Seq::empty());
    assert(new_lines =~= old_lines.push(body));
    // The entry of the new line.
    assert(index_of(body, ' ', 0) == key.len()) by {
        lemma_index_after_free_prefix(body, ' ', key.len() as int, 0);
    }
    assert(body.subrange(0, key.len() as int) =~= key);
    assert(body.subrange(key.len() as int + 1, body.len() as int) =~= value);
    assert(entry_of(body) == Some((key, value)));
    assert(new_lines.len() == old_lines.len() + 1);
    assert(new_lines[new_lines.len() - 1] == body);
    lemma_entries_prefix(new_lines, old_lines, old_lines.len() as int);
    let entries = cache_entries(contents + line);
    assert(entries == entries_of(old_lines, old_lines.len() as int).push((key, value)));
}

/// The pieces of a line that ends in its only line feed.
proof fn lemma_line_pieces(body: Seq<char>, from: int, current: Seq<char>)
    requires
        0 <= from <= body.len(),
        free_of(body, '\n'),
    ensures
        pieces_from(body.push('\n'), '\n', from, current) == seq![
            current + body.subrange(from, body.len() as int),
            Seq::<char>::empty(),
        ],
    decreases body.len() - from,
{
    let line = body.push('\n');
    if from < body.len() {
        assert(line[from] == body[from]);
        lemma_line_pieces(body, from + 1, current.push(body[from]));
        assert(current.push(body[from]) + body.subrange(from + 1, body.len() as int) =~= current
            + body.subrange(from, body.len() as int));
    } else {
        assert(line[from] == '\n');
        assert(pieces_from(line, '\n', from + 1, Seq::empty()) == seq![Seq::<char>::empty()]);
        assert(current + body.subrange(from, body.len() as int) =~= current);
        assert(seq![current] + seq![Seq::<char>::empty()] =~= seq![current, Seq::<char>::empty()]);
    }
}

/// The first `c` of a text stands where a prefix without `c` ends, if it
/// stands there.
proof fn lemma_index_after_free_prefix(s: Seq<char>, c: char, at: int, from: int)
    requires
        0 <= from <= at < s.len(),
        s[at] == c,
        forall|i: int| from <= i < at ==> #[trigger] s[i] != c,
    ensures
        index_of(s, c, from) == at,
    decreases at - from,
{
    if from < at {
        lemma_index_after_free_prefix(s, c, at, from + 1);
    }
}

/// The entries of the first lines do not depend on the lines behind them.
proof fn lemma_entries_prefix(longer: Seq<Seq<char>>, shorter: Seq<Seq<char>>, upto: int)
    requires
        0 <= upto <= shorter.len() <= longer.len(),
        forall|i: int| 0 <= i < shorter.len() ==> longer[i] == shorter[i],
    ensures
        entries_of(longer, upto) == entries_of(shorter, upto),
    decreases upto,
{
    if upto > 0 {
        lemma_entries_prefix(longer, shorter, upto - 1);
    }
}

} // verus!
