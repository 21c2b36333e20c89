//! Character classes and small string helpers shared by the grammar and the
//! value types.
use vstd::prelude::*;

verus! {

/// The characters that carry the Unicode `White_Space` property.
pub open spec fn is_white_space(c: char) -> bool {
    let u = c as u32;
    (0x09 <= u && u <= 0x0d) || u == 0x20 || u == 0x85 || u == 0xa0 || u == 0x1680 || (0x2000
        <= u && u <= 0x200a) || u == 0x2028 || u == 0x2029 || u == 0x202f || u == 0x205f || u
        == 0x3000
}

/// An ASCII character in the inclusive range `lo..=hi`.
pub open spec fn in_range(c: char, lo: u32, hi: u32) -> bool {
    lo <= c as u32 && c as u32 <= hi
}

/// Whether a character beyond ASCII has the Unicode `Uppercase` property.
pub uninterp spec fn unicode_uppercase(c: char) -> bool;

/// Whether a character beyond ASCII is in the Unicode general category `N`.
pub uninterp spec fn unicode_numeric(c: char) -> bool;

/// Whether a character beyond ASCII is `Alphabetic` or in category `N`.
pub uninterp spec fn unicode_alphanumeric(c: char) -> bool;

/// What `char::is_uppercase` answers: `'A'..='Z'` on ASCII. No white space
/// character is uppercase.
pub open spec fn is_uppercase_char(c: char) -> bool {
    if (c as u32) < 0x80 {
        in_range(c, 0x41, 0x5a)
    } else {
        unicode_uppercase(c) && !is_white_space(c)
    }
}

/// What `char::is_numeric` answers: `'0'..='9'` on ASCII. No white space
/// character is numeric.
pub open spec fn is_numeric_char(c: char) -> bool {
    if (c as u32) < 0x80 {
        in_range(c, 0x30, 0x39)
    } else {
        unicode_numeric(c) && !is_white_space(c)
    }
}

/// What `char::is_alphanumeric` answers: `'0'..='9'`, `'A'..='Z'` and
/// `'a'..='z'` on ASCII. No white space character is alphanumeric.
pub open spec fn is_alphanumeric_char(c: char) -> bool {
    if (c as u32) < 0x80 {
        in_range(c, 0x30, 0x39) || in_range(c, 0x41, 0x5a) || in_range(c, 0x61, 0x7a)
    } else {
        unicode_alphanumeric(c) && !is_white_space(c)
    }
}

/// Relies on `char::is_whitespace`: true exactly of the `White_Space` characters.
#[verifier::external_body]
pub(crate) fn char_is_whitespace(c: char) -> (r: bool)
    ensures
        r == is_white_space(c),
{
    c.is_whitespace()
}

/// Relies on `char::is_uppercase`. Its source answers ASCII by the range
/// `'A'..='Z'` and the rest by the Unicode tables, where no `White_Space`
/// character is uppercase.
#[verifier::external_body]
pub(crate) fn char_is_uppercase(c: char) -> (r: bool)
    ensures
        (c as u32) >= 0x80 ==> r == (unicode_uppercase(c) && !is_white_space(c)),
        r == is_uppercase_char(c),
{
    c.is_uppercase()
}

/// Relies on `char::is_numeric`. Its source answers ASCII by the range
/// `'0'..='9'` and the rest by the Unicode tables, where no `White_Space`
/// character is numeric.
#[verifier::external_body]
pub(crate) fn char_is_numeric(c: char) -> (r: bool)
    ensures
        (c as u32) >= 0x80 ==> r == (unicode_numeric(c) && !is_white_space(c)),
        r == is_numeric_char(c),
{
    c.is_numeric()
}

/// Relies on `char::is_alphanumeric`. Its source answers ASCII by the ranges
/// `'0'..='9'`, `'A'..='Z'` and `'a'..='z'` and the rest by the Unicode
/// tables, where no `White_Space` character is alphabetic or numeric.
#[verifier::external_body]
pub(crate) fn char_is_alphanumeric(c: char) -> (r: bool)
    ensures
        (c as u32) >= 0x80 ==> r == (unicode_alphanumeric(c) && !is_white_space(c)),
        r == is_alphanumeric_char(c),
{
    c.is_alphanumeric()
}

/// Characters with equal code points are equal.
pub proof fn lemma_char_code_injective(x: char, y: char)
    ensures
        (x as u32 == y as u32) == (x == y),
{
}

/// Relies on `String::push`: appends one character.
#[verifier::external_body]
pub(crate) fn push_char(s: &mut String, c: char)
    ensures
        final(s)@ == old(s)@.push(c),
{
    s.push(c);
}

/// The characters of a string, in order.
pub fn chars_of(s: &str) -> (r: Vec<char>)
    ensures
        r@ == s@,
{
    let mut out: Vec<char> = Vec::new();
    for c in it: s.chars()
        invariant
            it.seq() == s@,
            out@ == it.seq().take(it.index() as int),
    {
        out.push(c);
    }
    assert(out@ =~= s@);
    out
}

/// A string made of the given characters.
pub fn string_of(cs: &Vec<char>, start: usize, end: usize) -> (r: String)
    requires
        start <= end <= cs.len(),
    ensures
        r@ == cs@.subrange(start as int, end as int),
{
    let mut out = String::new();
    let mut i = start;
    while i < end
        invariant
            start <= i <= end <= cs.len(),
            out@ == cs@.subrange(start as int, i as int),
        decreases end - i,
    {
        push_char(&mut out, cs[i]);
        assert(cs@.subrange(start as int, i + 1) =~= cs@.subrange(start as int, i as int).push(cs@[i as int]));
        i += 1;
    }
    out
}

} // verus!
