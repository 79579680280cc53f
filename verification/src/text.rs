//! Character classes and conversions between strings and character vectors.

use vstd::prelude::*;

verus! {

/// The Unicode `White_Space` property of a character outside ASCII (what
/// `char::is_whitespace` answers there).
pub uninterp spec fn unicode_whitespace(c: char) -> bool;

/// The Unicode `Alphabetic` property of a character outside ASCII (what
/// `char::is_alphabetic` answers there).
pub uninterp spec fn unicode_alphabetic(c: char) -> bool;

/// Alphabetic-or-numeric in Unicode, for a character outside ASCII (what
/// `char::is_alphanumeric` answers there).
pub uninterp spec fn unicode_alphanumeric(c: char) -> bool;

/// The lowercase mapping of a string that holds a character outside ASCII (what
/// `str::to_lowercase` returns there).
pub uninterp spec fn unicode_lowercase(s: Seq<char>) -> Seq<char>;

pub open spec fn is_ascii_char(c: char) -> bool {
    (c as u32) < 128
}

pub open spec fn is_ascii_digit(c: char) -> bool {
    48 <= (c as u32) <= 57
}

pub open spec fn is_ascii_upper(c: char) -> bool {
    65 <= (c as u32) <= 90
}

pub open spec fn is_ascii_lower(c: char) -> bool {
    97 <= (c as u32) <= 122
}

pub open spec fn is_ascii_alpha(c: char) -> bool {
    is_ascii_upper(c) || is_ascii_lower(c)
}

/// The ASCII characters that carry the `White_Space` property.
pub open spec fn is_ascii_space(c: char) -> bool {
    c == ' ' || c == '\t' || c == '\n' || c == '\x0B' || c == '\x0C' || c == '\r'
}

pub open spec fn all_ascii(s: Seq<char>) -> bool {
    forall|i: int| 0 <= i < s.len() ==> is_ascii_char(#[trigger] s[i])
}

/// ASCII lowercase of one character.
pub open spec fn ascii_lower_char(c: char) -> char {
    if is_ascii_upper(c) {
        ((c as u32) + 32) as char
    } else {
        c
    }
}

pub open spec fn ascii_lower(s: Seq<char>) -> Seq<char> {
    s.map_values(|c: char| ascii_lower_char(c))
}

/// `char::is_whitespace`: on ASCII the six space characters, elsewhere the Unicode
/// property.
pub open spec fn is_whitespace(c: char) -> bool {
    if is_ascii_char(c) {
        is_ascii_space(c)
    } else {
        unicode_whitespace(c)
    }
}

/// `char::is_alphabetic`: on ASCII the letters, elsewhere the Unicode property.
pub open spec fn is_alphabetic(c: char) -> bool {
    if is_ascii_char(c) {
        is_ascii_alpha(c)
    } else {
        unicode_alphabetic(c)
    }
}

/// `char::is_alphanumeric`: on ASCII the letters and digits, elsewhere the Unicode
/// property.
pub open spec fn is_alphanumeric(c: char) -> bool {
    if is_ascii_char(c) {
        is_ascii_alpha(c) || is_ascii_digit(c)
    } else {
        unicode_alphanumeric(c)
    }
}

/// `str::to_lowercase`: ASCII lowercasing on ASCII text, the Unicode mapping otherwise.
pub open spec fn lowercase(s: Seq<char>) -> Seq<char> {
    if all_ascii(s) {
        ascii_lower(s)
    } else {
        unicode_lowercase(s)
    }
}

/// `char::is_whitespace`.
/// Claims the result is the Unicode `White_Space` property of `c`, which on ASCII
/// characters holds exactly for space, tab, line feed, vertical tab, form feed and
/// carriage return.
#[verifier::external_body]
pub(crate) fn char_is_whitespace(c: char) -> (b: bool)
    ensures
        b == is_whitespace(c),
        !is_ascii_char(c) ==> b == unicode_whitespace(c),
{
    c.is_whitespace()
}

/// `char::is_alphabetic`.
/// Claims the result is the Unicode `Alphabetic` property of `c`, which on ASCII
/// characters holds exactly for the letters.
#[verifier::external_body]
pub(crate) fn char_is_alphabetic(c: char) -> (b: bool)
    ensures
        b == is_alphabetic(c),
        !is_ascii_char(c) ==> b == unicode_alphabetic(c),
{
    c.is_alphabetic()
}

/// `char::is_alphanumeric`.
/// Claims the result is alphabetic-or-numeric in Unicode, which on ASCII characters
/// holds exactly for the letters and the decimal digits.
#[verifier::external_body]
pub(crate) fn char_is_alphanumeric(c: char) -> (b: bool)
    ensures
        b == is_alphanumeric(c),
        !is_ascii_char(c) ==> b == unicode_alphanumeric(c),
        is_alphabetic(c) ==> b,
{
    c.is_alphanumeric()
}

/// `str::to_lowercase`.
/// Claims the result is the named lowercase mapping of the input, and that on an input
/// made of ASCII characters only it lowercases each ASCII letter and keeps the rest.
#[verifier::external_body]
pub(crate) fn str_to_lowercase(s: &str) -> (r: String)
    ensures
        r@ == lowercase(s@),
        !all_ascii(s@) ==> r@ == unicode_lowercase(s@),
{
    s.to_lowercase()
}

/// `str::chars` collected into a vector.
/// Claims the vector holds the characters of `s` in order; the length bound is the
/// allocation limit of a vector of 4-byte characters (at most `isize::MAX` bytes).
#[verifier::external_body]
pub(crate) fn chars_of(s: &str) -> (v: Vec<char>)
    ensures
        v@ == s@,
        4 * v@.len() <= isize::MAX,
{
    s.chars().collect()
}

/// `String::from_iter` over characters.
/// Claims the string holds exactly the given characters in order.
#[verifier::external_body]
pub(crate) fn string_from_chars(v: &[char]) -> (s: String)
    ensures
        s@ == v@,
{
    v.iter().collect()
}

/// A one-character string.
pub fn string_of_char(c: char) -> (s: String)
    ensures
        s@ == seq![c],
{
    let mut v: Vec<char> = Vec::new();
    v.push(c);
    assert(v@ =~= seq![c]);
    string_from_chars(v.as_slice())
}

pub fn is_digit(c: char) -> (b: bool)
    ensures
        b == is_ascii_digit(c),
{
    '0' <= c && c <= '9'
}

/// The decimal digit character of `d < 10`.
pub open spec fn digit_char(d: nat) -> char {
    (48 + d) as char
}

/// Decimal notation of a natural number, without leading zeros.
pub open spec fn decimal(n: nat) -> Seq<char>
    decreases n,
{
    if n < 10 {
        seq![digit_char(n)]
    } else {
        decimal(n / 10).push(digit_char(n % 10))
    }
}

/// Decimal notation of `n` padded on the left with zeros to at least `width` characters.
pub open spec fn zero_padded(n: nat, width: nat) -> Seq<char> {
    let d = decimal(n);
    if d.len() >= width {
        d
    } else {
        Seq::new((width - d.len()) as nat, |i: int| '0') + d
    }
}

/// Writes `n` in decimal.
pub fn decimal_chars(n: u64) -> (v: Vec<char>)
    ensures
        v@ == decimal(n as nat),
    decreases n,
{
    if n < 10 {
        let c = char_from_digit(n);
        let mut v = Vec::new();
        v.push(c);
        v
    } else {
        let mut v = decimal_chars(n / 10);
        let c = char_from_digit(n % 10);
        v.push(c);
        v
    }
}

fn char_from_digit(d: u64) -> (c: char)
    requires
        d < 10,
    ensures
        c == digit_char(d as nat),
{
    let b: u8 = 48u8 + (d as u8);
    let c = b as char;
    assert(c == digit_char(d as nat));
    c
}

/// Writes `n` in decimal, padded with zeros on the left to at least `width` digits.
pub fn zero_padded_chars(n: u64, width: usize) -> (v: Vec<char>)
    ensures
        v@ == zero_padded(n as nat, width as nat),
{
    let d = decimal_chars(n);
    if d.len() >= width {
        d
    } else {
        let mut v: Vec<char> = Vec::new();
        let pad = width - d.len();
        let mut i: usize = 0;
        while i < pad
            invariant
                i <= pad,
                pad == width - d@.len(),
                v@ == Seq::new(i as nat, |k: int| '0'),
            decreases pad - i,
        {
            v.push('0');
            i = i + 1;
            assert(v@ =~= Seq::new(i as nat, |k: int| '0'));
        }
        let mut j: usize = 0;
        let ghost padv = v@;
        while j < d.len()
            invariant
                j <= d@.len(),
                padv == Seq::new(pad as nat, |k: int| '0'),
                v@ == padv + d@.subrange(0, j as int),
            decreases d@.len() - j,
        {
            v.push(d[j]);
            j = j + 1;
            assert(v@ =~= padv + d@.subrange(0, j as int));
        }
        assert(d@.subrange(0, d@.len() as int) =~= d@);
        v
    }
}

/// Whether two character slices hold the same characters.
pub fn chars_equal(a: &[char], b: &[char]) -> (r: bool)
    ensures
        r == (a@ == b@),
{
    if a.len() != b.len() {
        return false;
    }
    let mut i: usize = 0;
    while i < a.len()
        invariant
            a@.len() == b@.len(),
            i <= a@.len(),
            forall|k: int| 0 <= k < i ==> a@[k] == b@[k],
        decreases a@.len() - i,
    {
        if a[i] != b[i] {
            return false;
        }
        i = i + 1;
    }
    assert(a@ =~= b@);
    true
}

/// The characters `v[from..to]` as a new vector.
pub fn chars_range(v: &[char], from: usize, to: usize) -> (r: Vec<char>)
    requires
        from <= to <= v@.len(),
    ensures
        r@ == v@.subrange(from as int, to as int),
{
    let mut r: Vec<char> = Vec::new();
    let mut i = from;
    while i < to
        invariant
            from <= i <= to,
            to <= v@.len(),
            r@ == v@.subrange(from as int, i as int),
        decreases to - i,
    {
        r.push(v[i]);
        i = i + 1;
        assert(r@ =~= v@.subrange(from as int, i as int));
    }
    r
}

/// Appends all of `src` to the end of `dst`.
pub fn push_all(dst: &mut Vec<char>, src: &[char])
    ensures
        final(dst)@ == old(dst)@ + src@,
{
    let mut i: usize = 0;
    while i < src.len()
        invariant
            i <= src@.len(),
            dst@ == old(dst)@ + src@.subrange(0, i as int),
        decreases src@.len() - i,
    {
        dst.push(src[i]);
        i = i + 1;
        assert(dst@ =~= old(dst)@ + src@.subrange(0, i as int));
    }
    assert(src@.subrange(0, src@.len() as int) =~= src@);
}

/// Appends the characters of `s` to the end of `dst`.
pub fn push_str(dst: &mut Vec<char>, s: &str)
    ensures
        final(dst)@ == old(dst)@ + s@,
{
    let v = chars_of(s);
    push_all(dst, v.as_slice());
}

/// The uppercase mapping of a character outside ASCII (what `char::to_uppercase` yields
/// there, possibly several characters).
pub uninterp spec fn unicode_uppercase(c: char) -> Seq<char>;

/// `char::to_uppercase`: on ASCII the letter's capital (others unchanged), elsewhere the
/// Unicode mapping.
pub open spec fn uppercase_char(c: char) -> Seq<char> {
    if is_ascii_char(c) {
        if is_ascii_lower(c) {
            seq![((c as u32) - 32) as char]
        } else {
            seq![c]
        }
    } else {
        unicode_uppercase(c)
    }
}

/// `char::to_uppercase`, collected into a string.
/// Claims the result is the named uppercase mapping; on ASCII it capitalizes the letters
/// and keeps the rest.
#[verifier::external_body]
pub(crate) fn char_to_uppercase(c: char) -> (r: String)
    ensures
        r@ == uppercase_char(c),
        !is_ascii_char(c) ==> r@ == unicode_uppercase(c),
{
    c.to_uppercase().collect()
}

} // verus!
