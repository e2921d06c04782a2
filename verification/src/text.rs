//! Character-level helpers shared by the parsers and formatters.

use vstd::prelude::*;

verus! {

/// `String::push` appends one character to the end of the string.
pub assume_specification[ String::push ](s: &mut String, c: char)
    ensures
        final(s)@ == old(s)@.push(c),
;

/// Copies the characters of `s` into a vector.
pub fn chars_of(s: &str) -> (v: Vec<char>)
    ensures
        v@ == s@,
{
    let mut v: Vec<char> = Vec::new();
    for c in it: s.chars()
        invariant
            v@ == s@.take(it.index() as int),
            it.seq() == s@,
    {
        v.push(c);
    }
    assert(s@.take(s@.len() as int) == s@);
    v
}

/// Builds a string from a slice of characters.
pub fn string_of(v: &Vec<char>) -> (s: String)
    ensures
        s@ == v@,
{
    let mut s = String::new();
    let mut i: usize = 0;
    while i < v.len()
        invariant
            i <= v.len(),
            s@ == v@.take(i as int),
        decreases v.len() - i,
    {
        s.push(v[i]);
        i += 1;
        assert(v@.take(i as int) == v@.take(i - 1).push(v@[i - 1]));
    }
    assert(v@.take(v@.len() as int) == v@);
    s
}

/// Lowercase form of a text, as the standard library computes it.
pub uninterp spec fn lowercase_of(s: Seq<char>) -> Seq<char>;

/// `str::to_lowercase`: the result depends on the characters of the text
/// alone; it is named, not spelled out.
#[verifier::external_body]
pub(crate) fn to_lowercase(s: &str) -> (r: String)
    ensures
        r@ == lowercase_of(s@),
{
    s.to_lowercase()
}

/// White space as Unicode defines it.
pub open spec fn is_whitespace(c: char) -> bool {
    let n = c as u32;
    ||| 0x09 <= n <= 0x0d
    ||| n == 0x20
    ||| n == 0x85
    ||| n == 0xa0
    ||| n == 0x1680
    ||| 0x2000 <= n <= 0x200a
    ||| n == 0x2028
    ||| n == 0x2029
    ||| n == 0x202f
    ||| n == 0x205f
    ||| n == 0x3000
}

/// Tells whether `c` is white space.
pub fn char_is_whitespace(c: char) -> (r: bool)
    ensures
        r == is_whitespace(c),
{
    let n: u32 = c as u32;
    (0x09 <= n && n <= 0x0d) || n == 0x20 || n == 0x85 || n == 0xa0 || n == 0x1680 || (0x2000 <= n
        && n <= 0x200a) || n == 0x2028 || n == 0x2029 || n == 0x202f || n == 0x205f || n == 0x3000
}

/// An ASCII decimal digit.
pub open spec fn is_digit(c: char) -> bool {
    '0' <= c <= '9'
}

/// An ASCII letter.
pub open spec fn is_ascii_letter(c: char) -> bool {
    ('a' <= c <= 'z') || ('A' <= c <= 'Z')
}

/// The upper-case form of an ASCII letter; any other character unchanged.
pub open spec fn ascii_upper(c: char) -> char {
    if 'a' <= c <= 'z' {
        ((c as u32 - 32) as u8) as char
    } else {
        c
    }
}

/// Converts an ASCII letter to upper case.
pub fn to_ascii_upper(c: char) -> (r: char)
    ensures
        r == ascii_upper(c),
{
    if 'a' <= c && c <= 'z' {
        ((c as u32 - 32) as u8) as char
    } else {
        c
    }
}

/// `needle` stands in `hay` at index `at`.
pub open spec fn occurs_at(hay: Seq<char>, needle: Seq<char>, at: int) -> bool {
    0 <= at && at + needle.len() <= hay.len() && hay.subrange(at, at + needle.len()) == needle
}

/// `needle` stands somewhere in `hay`.
pub open spec fn contains_text(hay: Seq<char>, needle: Seq<char>) -> bool {
    exists|at: int| occurs_at(hay, needle, at)
}

/// `hay` begins with `needle`.
pub open spec fn has_prefix(hay: Seq<char>, needle: Seq<char>) -> bool {
    occurs_at(hay, needle, 0)
}

/// `hay` ends with `needle`.
pub open spec fn has_suffix(hay: Seq<char>, needle: Seq<char>) -> bool {
    occurs_at(hay, needle, hay.len() - needle.len())
}

/// Tells whether `needle` stands in `hay` at index `at`.
pub fn matches_at(hay: &Vec<char>, needle: &Vec<char>, at: usize) -> (r: bool)
    ensures
        r == occurs_at(hay@, needle@, at as int),
{
    if needle.len() > hay.len() || at > hay.len() - needle.len() {
        return false;
    }
    let mut k: usize = 0;
    while k < needle.len()
        invariant
            k <= needle.len(),
            at + needle.len() <= hay.len(),
            forall|j: int| 0 <= j < k ==> hay@[at + j] == needle@[j],
        decreases needle.len() - k,
    {
        if hay[at + k] != needle[k] {
            assert(hay@.subrange(at as int, at + needle@.len())[k as int] != needle@[k as int]);
            return false;
        }
        k += 1;
    }
    assert(hay@.subrange(at as int, at + needle@.len()) =~= needle@);
    true
}

/// Tells whether `hay` begins with `needle`.
pub fn starts_with(hay: &Vec<char>, needle: &Vec<char>) -> (r: bool)
    ensures
        r == has_prefix(hay@, needle@),
{
    matches_at(hay, needle, 0)
}

/// Tells whether `hay` ends with `needle`.
pub fn ends_with(hay: &Vec<char>, needle: &Vec<char>) -> (r: bool)
    ensures
        r == has_suffix(hay@, needle@),
{
    if needle.len() > hay.len() {
        return false;
    }
    matches_at(hay, needle, hay.len() - needle.len())
}

/// Finds the first index at which `needle` stands in `hay`.
pub fn find_text(hay: &Vec<char>, needle: &Vec<char>) -> (r: Option<usize>)
    ensures
        match r {
            Some(at) => occurs_at(hay@, needle@, at as int) && forall|j: int|
                0 <= j < at ==> !occurs_at(hay@, needle@, j),
            None => !contains_text(hay@, needle@),
        },
{
    if needle.len() > hay.len() {
        return None;
    }
    let last: usize = hay.len() - needle.len();
    let mut at: usize = 0;
    while at < last
        invariant
            last == hay.len() - needle.len(),
            at <= last,
            forall|j: int| 0 <= j < at ==> !occurs_at(hay@, needle@, j),
        decreases last - at,
    {
        if matches_at(hay, needle, at) {
            return Some(at);
        }
        at += 1;
    }
    if matches_at(hay, needle, last) {
        Some(last)
    } else {
        None
    }
}

/// Finds the last index at which `needle` stands in `hay`.
pub fn rfind_text(hay: &Vec<char>, needle: &Vec<char>) -> (r: Option<usize>)
    ensures
        match r {
            Some(at) => occurs_at(hay@, needle@, at as int) && forall|j: int|
                j > at ==> !occurs_at(hay@, needle@, j),
            None => !contains_text(hay@, needle@),
        },
{
    if needle.len() > hay.len() {
        return None;
    }
    let last: usize = hay.len() - needle.len();
    let mut at: usize = last;
    while at > 0
        invariant
            last == hay.len() - needle.len(),
            at <= last,
            forall|j: int| j > at ==> !occurs_at(hay@, needle@, j),
        decreases at,
    {
        if matches_at(hay, needle, at) {
            return Some(at);
        }
        at -= 1;
    }
    if matches_at(hay, needle, 0) {
        Some(0)
    } else {
        None
    }
}

/// Index of the first place at or after `from` at which `needle` stands
/// in `hay`, or the length of `hay`.
pub open spec fn text_index(hay: Seq<char>, needle: Seq<char>, from: int) -> int
    decreases hay.len() - from,
{
    if from < 0 || from >= hay.len() {
        hay.len() as int
    } else if occurs_at(hay, needle, from) {
        from
    } else {
        text_index(hay, needle, from + 1)
    }
}

proof fn lemma_text_index_found(hay: Seq<char>, needle: Seq<char>, from: int, at: int)
    requires
        0 <= from <= at,
        occurs_at(hay, needle, at),
        forall|j: int| from <= j < at ==> !occurs_at(hay, needle, j),
    ensures
        text_index(hay, needle, from) == at,
    decreases at - from,
{
    if from < at {
        lemma_text_index_found(hay, needle, from + 1, at);
    }
}

proof fn lemma_text_index_missing(hay: Seq<char>, needle: Seq<char>, from: int)
    requires
        0 <= from,
        forall|j: int| from <= j ==> !occurs_at(hay, needle, j),
    ensures
        text_index(hay, needle, from) == hay.len(),
    decreases hay.len() - from,
{
    if from < hay.len() {
        lemma_text_index_missing(hay, needle, from + 1);
    }
}

/// Finds the first index at which `needle` stands in `hay`; the length of
/// `hay` where it stands nowhere.
pub fn index_of_text(hay: &Vec<char>, needle: &Vec<char>) -> (r: usize)
    ensures
        r == text_index(hay@, needle@, 0),
        r <= hay@.len(),
        r < hay@.len() ==> occurs_at(hay@, needle@, r as int),
{
    match find_text(hay, needle) {
        Some(at) => {
            proof {
                lemma_text_index_found(hay@, needle@, 0, at as int);
            }
            at
        },
        None => {
            proof {
                lemma_text_index_missing(hay@, needle@, 0);
            }
            hay.len()
        },
    }
}

/// Tells whether `needle` stands somewhere in `hay`.
pub fn contains(hay: &Vec<char>, needle: &Vec<char>) -> (r: bool)
    ensures
        r == contains_text(hay@, needle@),
{
    find_text(hay, needle).is_some()
}

/// Index of the first `c` in `s[from..]`, or the length of `s`.
pub open spec fn index_of(s: Seq<char>, c: char, from: int) -> int
    decreases s.len() - from,
{
    if from < 0 || from >= s.len() {
        s.len() as int
    } else if s[from] == c {
        from
    } else {
        index_of(s, c, from + 1)
    }
}

/// Finds the first `c` at or after `from`; the length where there is none.
pub fn find_char(s: &Vec<char>, c: char, from: usize) -> (r: usize)
    ensures
        r == index_of(s@, c, from as int),
        from <= s.len() ==> from <= r <= s.len(),
        r < s.len() ==> s@[r as int] == c,
        forall|j: int| from <= j < r && j < s.len() ==> s@[j] != c,
{
    if from >= s.len() {
        return s.len();
    }
    let mut i: usize = from;
    while i < s.len() && s[i] != c
        invariant
            from <= i <= s.len(),
            index_of(s@, c, from as int) == index_of(s@, c, i as int),
            forall|j: int| from <= j < i ==> s@[j] != c,
        decreases s.len() - i,
    {
        i += 1;
    }
    i
}

/// Copies `s[from..to]`.
pub fn slice_of(s: &Vec<char>, from: usize, to: usize) -> (r: Vec<char>)
    requires
        from <= to <= s.len(),
    ensures
        r@ == s@.subrange(from as int, to as int),
{
    let mut out: Vec<char> = Vec::new();
    let mut i: usize = from;
    while i < to
        invariant
            from <= i <= to <= s.len(),
            out@ == s@.subrange(from as int, i as int),
        decreases to - i,
    {
        out.push(s[i]);
        i += 1;
        assert(s@.subrange(from as int, i as int) == s@.subrange(from as int, i - 1).push(
            s@[i - 1],
        ));
    }
    out
}

/// Appends the characters of `tail` to `out`.
pub fn append(out: &mut Vec<char>, tail: &Vec<char>)
    ensures
        final(out)@ == old(out)@ + tail@,
{
    let mut i: usize = 0;
    while i < tail.len()
        invariant
            i <= tail.len(),
            out@ == old(out)@ + tail@.take(i as int),
        decreases tail.len() - i,
    {
        out.push(tail[i]);
        i += 1;
        assert(tail@.take(i as int) == tail@.take(i - 1).push(tail@[i - 1]));
    }
    assert(tail@.take(tail@.len() as int) == tail@);
}

/// Appends the characters of the text `tail` to `out`.
pub fn append_str(out: &mut Vec<char>, tail: &str)
    ensures
        final(out)@ == old(out)@ + tail@,
{
    let chars = chars_of(tail);
    append(out, &chars);
}

/// The words of `s[from..]`: the longest stretches without white space.
/// `current` holds the part of a word read before `from`.
pub open spec fn words_from(s: Seq<char>, from: int, current: Seq<char>) -> Seq<Seq<char>>
    decreases s.len() - from,
{
    let finished = if current.len() > 0 {
        seq![current]
    } else {
        Seq::<Seq<char>>::empty()
    };
    if from < 0 || from >= s.len() {
        finished
    } else if is_whitespace(s[from]) {
        finished + words_from(s, from + 1, Seq::empty())
    } else {
        words_from(s, from + 1, current.push(s[from]))
    }
}

/// The words of `s`, separated by white space.
pub open spec fn words_of(s: Seq<char>) -> Seq<Seq<char>> {
    words_from(s, 0, Seq::empty())
}

/// The texts that the vectors of `v` hold.
pub open spec fn texts_of(v: Seq<Vec<char>>) -> Seq<Seq<char>> {
    v.map_values(|w: Vec<char>| w@)
}

/// The texts that the strings of `v` hold.
pub open spec fn strings_of(v: Seq<String>) -> Seq<Seq<char>> {
    v.map_values(|w: String| w@)
}

/// Splits `s` into its words.
pub fn split_whitespace(s: &Vec<char>) -> (r: Vec<Vec<char>>)
    ensures
        texts_of(r@) == words_of(s@),
{
    let mut out: Vec<Vec<char>> = Vec::new();
    let mut current: Vec<char> = Vec::new();
    let mut i: usize = 0;
    assert(texts_of(out@) + words_from(s@, 0, current@) =~= words_of(s@));
    while i < s.len()
        invariant
            i <= s.len(),
            texts_of(out@) + words_from(s@, i as int, current@) == words_of(s@),
        decreases s.len() - i,
    {
        let ghost before = texts_of(out@);
        let ghost cur = current@;
        if char_is_whitespace(s[i]) {
            let ghost rest = words_from(s@, i + 1, Seq::empty());
            if current.len() > 0 {
                out.push(current);
                current = Vec::new();
                assert(texts_of(out@) =~= before + seq![cur]);
                assert(words_from(s@, i as int, cur) == seq![cur] + rest);
                assert((before + seq![cur]) + rest =~= before + (seq![cur] + rest));
            } else {
                assert(cur =~= Seq::<char>::empty());
                assert(words_from(s@, i as int, cur) == Seq::<Seq<char>>::empty() + rest);
                assert(Seq::<Seq<char>>::empty() + rest =~= rest);
            }
            assert(current@ =~= Seq::<char>::empty());
        } else {
            current.push(s[i]);
        }
        i += 1;
    }
    let ghost before = texts_of(out@);
    let ghost cur = current@;
    if current.len() > 0 {
        out.push(current);
        assert(texts_of(out@) =~= before + seq![cur]);
    } else {
        assert(before + Seq::<Seq<char>>::empty() =~= before);
    }
    out
}

/// The pieces of `s[from..]` between occurrences of `sep`; `current` holds
/// the part of a piece read before `from`. There is always one piece more
/// than there are separators.
pub open spec fn pieces_from(s: Seq<char>, sep: char, from: int, current: Seq<char>) -> Seq<
    Seq<char>,
>
    decreases s.len() - from,
{
    if from < 0 || from >= s.len() {
        seq![current]
    } else if s[from] == sep {
        seq![current] + pieces_from(s, sep, from + 1, Seq::empty())
    } else {
        pieces_from(s, sep, from + 1, current.push(s[from]))
    }
}

/// The pieces of `s` between occurrences of `sep`.
pub open spec fn pieces_of(s: Seq<char>, sep: char) -> Seq<Seq<char>> {
    pieces_from(s, sep, 0, Seq::empty())
}

/// Splits `s` at every occurrence of `sep`.
pub fn split_on(s: &Vec<char>, sep: char) -> (r: Vec<Vec<char>>)
    ensures
        texts_of(r@) == pieces_of(s@, sep),
        r@.len() >= 1,
{
    let mut out: Vec<Vec<char>> = Vec::new();
    let mut current: Vec<char> = Vec::new();
    let mut i: usize = 0;
    assert(texts_of(out@) + pieces_from(s@, sep, 0, current@) =~= pieces_of(s@, sep));
    while i < s.len()
        invariant
            i <= s.len(),
            texts_of(out@) + pieces_from(s@, sep, i as int, current@) == pieces_of(s@, sep),
        decreases s.len() - i,
    {
        let ghost before = texts_of(out@);
        let ghost cur = current@;
        if s[i] == sep {
            out.push(current);
            current = Vec::new();
            assert(texts_of(out@) =~= before + seq![cur]);
            assert(texts_of(out@) + pieces_from(s@, sep, i + 1, current@) =~= before
                + pieces_from(s@, sep, i as int, cur));
        } else {
            current.push(s[i]);
        }
        i += 1;
    }
    let ghost before = texts_of(out@);
    let ghost cur = current@;
    out.push(current);
    assert(texts_of(out@) =~= before + seq![cur]);
    out
}

/// Number of leading white-space characters of `s[from..]`.
pub open spec fn leading_space(s: Seq<char>, from: int) -> int
    decreases s.len() - from,
{
    if 0 <= from < s.len() && is_whitespace(s[from]) {
        1 + leading_space(s, from + 1)
    } else {
        0
    }
}

/// Number of trailing white-space characters of `s[..upto]`.
pub open spec fn trailing_space(s: Seq<char>, upto: int) -> int
    decreases upto,
{
    if 0 < upto <= s.len() && is_whitespace(s[upto - 1]) {
        1 + trailing_space(s, upto - 1)
    } else {
        0
    }
}

/// `s` without the white space at its ends.
pub open spec fn trimmed(s: Seq<char>) -> Seq<char> {
    let lead = leading_space(s, 0);
    if lead >= s.len() {
        Seq::empty()
    } else {
        s.subrange(lead, s.len() - trailing_space(s, s.len() as int))
    }
}

/// Removes the white space at both ends of `s`.
pub fn trim(s: &Vec<char>) -> (r: Vec<char>)
    ensures
        r@ == trimmed(s@),
{
    let mut from: usize = 0;
    while from < s.len() && char_is_whitespace(s[from])
        invariant
            from <= s.len(),
            leading_space(s@, 0) == from + leading_space(s@, from as int),
        decreases s.len() - from,
    {
        from += 1;
    }
    if from >= s.len() {
        return Vec::new();
    }
    assert(leading_space(s@, from as int) == 0);
    let mut to: usize = s.len();
    while to > from && char_is_whitespace(s[to - 1])
        invariant
            from < s.len(),
            !is_whitespace(s@[from as int]),
            leading_space(s@, 0) == from,
            from < to <= s.len(),
            trailing_space(s@, s@.len() as int) == (s.len() - to) + trailing_space(s@, to as int),
        decreases to,
    {
        to -= 1;
    }
    assert(trailing_space(s@, to as int) == 0);
    slice_of(s, from, to)
}

/// The character that writes the digit `d`.
pub open spec fn digit_char(d: int) -> char {
    ((d + 48) as u8) as char
}

/// The decimal digits of `n`, without leading zeros.
pub open spec fn digits_of(n: nat) -> Seq<char>
    decreases n,
{
    if n < 10 {
        seq![digit_char(n as int)]
    } else {
        digits_of(n / 10).push(digit_char((n % 10) as int))
    }
}

/// The decimal digits of `n`, with a leading zero where there would be
/// one digit only.
pub open spec fn two_digits_of(n: nat) -> Seq<char> {
    if n < 10 {
        seq!['0', digit_char(n as int)]
    } else {
        digits_of(n)
    }
}

/// Writes `n` in decimal.
pub fn decimal(n: u64) -> (r: Vec<char>)
    ensures
        r@ == digits_of(n as nat),
        r@.len() >= 1,
    decreases n,
{
    if n < 10 {
        let mut v: Vec<char> = Vec::new();
        v.push(((n + 48) as u8) as char);
        assert(v@ =~= seq![digit_char(n as int)]);
        v
    } else {
        let mut v = decimal(n / 10);
        v.push(((n % 10 + 48) as u8) as char);
        v
    }
}

/// Writes `n` in decimal with at least two digits.
pub fn two_digits(n: u64) -> (r: Vec<char>)
    ensures
        r@ == two_digits_of(n as nat),
{
    if n < 10 {
        let mut v: Vec<char> = Vec::new();
        v.push('0');
        v.push(((n + 48) as u8) as char);
        assert(v@ =~= seq!['0', digit_char(n as int)]);
        v
    } else {
        decimal(n)
    }
}

/// Every character of `s` is a decimal digit.
pub open spec fn all_digits(s: Seq<char>) -> bool {
    forall|i: int| 0 <= i < s.len() ==> is_digit(#[trigger] s[i])
}

/// The number that the digits of `s` write.
pub open spec fn number_of(s: Seq<char>) -> nat
    decreases s.len(),
{
    if s.len() == 0 {
        0
    } else {
        (number_of(s.drop_last()) * 10 + (s.last() as u32 - 48)) as nat
    }
}

/// The number that `s` writes, where `s` is a non-empty run of digits
/// whose value fits 64 bits.
pub open spec fn parsed_digits(s: Seq<char>) -> Option<u64> {
    if s.len() > 0 && all_digits(s) && number_of(s) <= u64::MAX {
        Some(number_of(s) as u64)
    } else {
        None
    }
}

/// A longer run of digits writes no smaller number.
pub proof fn lemma_number_grows(s: Seq<char>, k: int)
    requires
        0 <= k <= s.len(),
        all_digits(s),
    ensures
        number_of(s.take(k)) <= number_of(s),
    decreases s.len() - k,
{
    if k < s.len() {
        lemma_number_grows(s, k + 1);
        assert(s.take(k + 1).drop_last() =~= s.take(k));
        assert(is_digit(s[k]));
    } else {
        assert(s.take(k) =~= s);
    }
}

/// Reads a run of decimal digits.
pub fn parse_digits(s: &Vec<char>) -> (r: Option<u64>)
    ensures
        r == parsed_digits(s@),
{
    if s.len() == 0 {
        return None;
    }
    let mut value: u64 = 0;
    let mut i: usize = 0;
    assert(s@.take(0) =~= Seq::<char>::empty());
    while i < s.len()
        invariant
            i <= s.len(),
            all_digits(s@.take(i as int)),
            value == number_of(s@.take(i as int)),
        decreases s.len() - i,
    {
        let c: char = s[i];
        if !('0' <= c && c <= '9') {
            assert(!is_digit(s@[i as int]));
            return None;
        }
        let d: u64 = (c as u32 - 48) as u64;
        proof {
            assert(s@.take(i + 1).drop_last() =~= s@.take(i as int));
            assert(s@.take(i + 1).last() == c);
            assert(all_digits(s@.take(i + 1))) by {
                assert forall|j: int| 0 <= j < i + 1 implies is_digit(#[trigger] s@.take(i + 1)[j]) by {
                    if j < i {
                        assert(s@.take(i as int)[j] == s@[j]);
                    }
                }
            }
        }
        if value > (u64::MAX - d) / 10 {
            proof {
                let longer = s@.take(i + 1);
                assert(number_of(longer) > u64::MAX);
                if all_digits(s@) {
                    lemma_number_grows(s@, i + 1);
                }
            }
            return None;
        }
        value = value * 10 + d;
        i += 1;
    }
    assert(s@.take(s@.len() as int) =~= s@);
    Some(value)
}

/// Tells whether two vectors hold the same characters.
pub fn same_chars(a: &Vec<char>, b: &Vec<char>) -> (r: bool)
    ensures
        r == (a@ == b@),
{
    if a.len() != b.len() {
        return false;
    }
    let mut i: usize = 0;
    while i < a.len()
        invariant
            i <= a.len(),
            a.len() == b.len(),
            forall|j: int| 0 <= j < i ==> a@[j] == b@[j],
        decreases a.len() - i,
    {
        if a[i] != b[i] {
            return false;
        }
        i += 1;
    }
    assert(a@ =~= b@);
    true
}

/// Tells whether `chars` spell the text `word`.
pub fn spells(chars: &Vec<char>, word: &str) -> (r: bool)
    ensures
        r == (chars@ == word@),
{
    let other = chars_of(word);
    same_chars(chars, &other)
}

/// The number that `s` writes as a text of std's unsigned integers does:
/// a non-empty run of decimal digits, one plus sign before it or none,
/// with a value that fits 64 bits.
pub open spec fn parsed_number(s: Seq<char>) -> Option<u64> {
    if s.len() > 0 && s[0] == '+' {
        parsed_digits(s.subrange(1, s.len() as int))
    } else {
        parsed_digits(s)
    }
}

/// Reads a number: a run of decimal digits, with a plus sign before it or
/// without.
pub fn parse_number(s: &Vec<char>) -> (r: Option<u64>)
    ensures
        r == parsed_number(s@),
{
    if s.len() > 0 && s[0] == '+' {
        let digits = slice_of(s, 1, s.len());
        parse_digits(&digits)
    } else {
        parse_digits(s)
    }
}

/// Number of bytes that `c` takes in UTF-8.
pub open spec fn utf8_width(c: char) -> int {
    if (c as u32) < 0x80 {
        1
    } else if (c as u32) < 0x800 {
        2
    } else if (c as u32) < 0x1_0000 {
        3
    } else {
        4
    }
}

/// Number of bytes that `s` takes in UTF-8.
pub open spec fn byte_len(s: Seq<char>) -> int
    decreases s.len(),
{
    if s.len() == 0 {
        0
    } else {
        byte_len(s.drop_last()) + utf8_width(s.last())
    }
}

/// Returns the number of bytes that `s` takes in UTF-8.
pub fn byte_length(s: &Vec<char>) -> (r: u128)
    ensures
        r == byte_len(s@),
        s@.len() <= r <= 4 * s@.len(),
{
    let mut total: u128 = 0;
    let mut i: usize = 0;
    assert(s@.take(0) =~= Seq::<char>::empty());
    while i < s.len()
        invariant
            i <= s.len(),
            total == byte_len(s@.take(i as int)),
            i <= total <= 4 * i,
        decreases s.len() - i,
    {
        let code: u32 = s[i] as u32;
        let width: u128 = if code < 0x80 {
            1
        } else if code < 0x800 {
            2
        } else if code < 0x1_0000 {
            3
        } else {
            4
        };
        assert(s@.take(i + 1).drop_last() =~= s@.take(i as int));
        total = total + width;
        i += 1;
    }
    assert(s@.take(s@.len() as int) =~= s@);
    total
}

/// Tells whether two texts are the same.
pub fn same_text(a: &str, b: &str) -> (r: bool)
    ensures
        r == (a@ == b@),
{
    let left = chars_of(a);
    let right = chars_of(b);
    same_chars(&left, &right)
}

/// The digits of a number write that number.
pub proof fn lemma_digits_write_their_number(n: nat)
    ensures
        number_of(digits_of(n)) == n,
        all_digits(digits_of(n)),
        digits_of(n).len() >= 1,
    decreases n,
{
    if n < 10 {
        let s = digits_of(n);
        assert(s.len() == 1);
        assert(s.drop_last().len() == 0);
        assert(number_of(s.drop_last()) == 0);
        assert(s.last() == digit_char(n as int));
    } else {
        lemma_digits_write_their_number(n / 10);
        let s = digits_of(n);
        assert(s.drop_last() =~= digits_of(n / 10));
        assert(s.last() == digit_char((n % 10) as int));
        assert forall|i: int| 0 <= i < s.len() implies is_digit(#[trigger] s[i]) by {
            if i < s.len() - 1 {
                assert(s[i] == digits_of(n / 10)[i]);
            }
        }
    }
}

/// Different numbers have different digits.
pub proof fn lemma_digits_differ(a: nat, b: nat)
    requires
        digits_of(a) == digits_of(b),
    ensures
        a == b,
{
    lemma_digits_write_their_number(a);
    lemma_digits_write_their_number(b);
}

} // verus!
