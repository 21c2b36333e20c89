//! Decimal numbers as `mantissa / 10^scale`, with the same bounds as
//! `rust_decimal`, and their canonical text.
use vstd::prelude::*;
use crate::text::push_char;

verus! {

/// The most digits a number may have: what `rust_decimal` holds exactly
/// whatever the scale.
pub const MAX_DIGITS: usize = 28;

/// The largest magnitude of a mantissa, `10^28 - 1`.
pub const MAX_MANTISSA: u128 = 9999999999999999999999999999;

/// The largest number of digits after the point, which leaves one before it.
pub const MAX_SCALE: u32 = 27;

/// The number `mantissa / 10^scale`, written with at most 28 digits. The
/// scale is kept as written, so `1.50` and `1.5` are different values.
/// Values order by mantissa, then scale: by number where the scales agree.
#[derive(Debug, Clone, Copy, PartialEq, Eq, PartialOrd, Ord, Hash, Structural)]
pub struct Decimal {
    pub mantissa: i128,
    pub scale: u32,
}

/// The mantissa and scale are within the bounds above.
pub open spec fn valid_decimal(d: Decimal) -> bool {
    -(MAX_MANTISSA as int) <= d.mantissa <= MAX_MANTISSA as int && d.scale <= MAX_SCALE
}

impl Decimal {
    /// The number `mantissa / 10^scale`.
    pub fn new(mantissa: i64, scale: u32) -> (r: Decimal)
        requires
            scale <= MAX_SCALE,
        ensures
            r == (Decimal { mantissa: mantissa as i128, scale }),
            valid_decimal(r),
    {
        Decimal { mantissa: mantissa as i128, scale }
    }

    pub fn mantissa(&self) -> (r: i128)
        ensures
            r == self.mantissa,
    {
        self.mantissa
    }

    pub fn scale(&self) -> (r: u32)
        ensures
            r == self.scale,
    {
        self.scale
    }
}

pub open spec fn is_digit(c: char) -> bool {
    c == '0' || c == '1' || c == '2' || c == '3' || c == '4' || c == '5' || c == '6' || c == '7'
        || c == '8' || c == '9'
}

/// The character of a digit below ten.
pub open spec fn digit_char(n: nat) -> char {
    if n == 0 {
        '0'
    } else if n == 1 {
        '1'
    } else if n == 2 {
        '2'
    } else if n == 3 {
        '3'
    } else if n == 4 {
        '4'
    } else if n == 5 {
        '5'
    } else if n == 6 {
        '6'
    } else if n == 7 {
        '7'
    } else if n == 8 {
        '8'
    } else {
        '9'
    }
}

/// The value of a digit character.
pub open spec fn digit_value(c: char) -> nat {
    if c == '1' {
        1
    } else if c == '2' {
        2
    } else if c == '3' {
        3
    } else if c == '4' {
        4
    } else if c == '5' {
        5
    } else if c == '6' {
        6
    } else if c == '7' {
        7
    } else if c == '8' {
        8
    } else if c == '9' {
        9
    } else {
        0
    }
}

/// The value of a string of decimal digits.
pub open spec fn digits_value(s: Seq<char>) -> nat
    decreases s.len(),
{
    if s.len() == 0 {
        0
    } else {
        digits_value(s.drop_last()) * 10 + digit_value(s.last())
    }
}

pub open spec fn all_digits(s: Seq<char>) -> bool {
    forall|i: int| 0 <= i < s.len() ==> is_digit(#[trigger] s[i])
}

/// The shortest decimal digits of `n`.
pub open spec fn digits_of(n: nat) -> Seq<char>
    decreases n,
{
    if n < 10 {
        seq![digit_char(n)]
    } else {
        digits_of(n / 10).push(digit_char(n % 10))
    }
}

/// `k` zeros.
pub open spec fn zeros(k: nat) -> Seq<char> {
    Seq::new(k, |i: int| '0')
}

/// The digits of `n`, with zeros in front up to `width` digits.
pub open spec fn padded_digits(n: nat, width: nat) -> Seq<char> {
    let d = digits_of(n);
    if d.len() >= width {
        d
    } else {
        zeros((width - d.len()) as nat) + d
    }
}

pub open spec fn magnitude(m: int) -> nat {
    if m < 0 {
        (-m) as nat
    } else {
        m as nat
    }
}

/// Digits with a point before the last `frac` of them, or no point when
/// `frac` is zero.
pub open spec fn with_point(body: Seq<char>, frac: nat) -> Seq<char> {
    if frac == 0 {
        body
    } else {
        body.take(body.len() - frac) + seq!['.'] + body.skip(body.len() - frac)
    }
}

/// The digits of a decimal without its sign: at least one digit before the
/// point, and exactly `scale` digits after it when the scale is not zero.
pub open spec fn unsigned_decimal_text(d: Decimal) -> Seq<char> {
    with_point(padded_digits(magnitude(d.mantissa as int), (d.scale + 1) as nat), d.scale as nat)
}

/// The canonical text of a decimal: a `-` for a negative value, then its
/// digits.
pub open spec fn decimal_text(d: Decimal) -> Seq<char> {
    if d.mantissa < 0 {
        seq!['-'] + unsigned_decimal_text(d)
    } else {
        unsigned_decimal_text(d)
    }
}

/// `10^n`.
pub open spec fn pow10(n: nat) -> nat
    decreases n,
{
    if n == 0 {
        1
    } else {
        10 * pow10((n - 1) as nat)
    }
}

/// Relies on `rust_decimal::Decimal::from_str` on `int_digits.frac_digits`,
/// then `mantissa` and `scale`: at most 28 digits in all are read exactly, as
/// the integer of all the digits and the number of digits after the point.
/// Of longer texts nothing is assumed.
#[verifier::external_body]
pub(crate) fn decimal_from_digits(int_digits: &str, frac_digits: &str) -> (r: Option<(i128, u32)>)
    ensures
        (int_digits@.len() >= 1 && all_digits(int_digits@) && all_digits(frac_digits@)
            && int_digits@.len() + frac_digits@.len() <= MAX_DIGITS) ==> r == Some(
            (digits_value(int_digits@ + frac_digits@) as i128, frac_digits@.len() as u32),
        ),
{
    let text = format!("{}.{}", int_digits, frac_digits);
    match <rust_decimal::Decimal as core::str::FromStr>::from_str(&text) {
        Ok(d) => Some((d.mantissa(), d.scale())),
        Err(_) => None,
    }
}

pub(crate) fn char_of_digit(d: u128) -> (c: char)
    requires
        d < 10,
    ensures
        c == digit_char(d as nat),
{
    if d == 0 {
        '0'
    } else if d == 1 {
        '1'
    } else if d == 2 {
        '2'
    } else if d == 3 {
        '3'
    } else if d == 4 {
        '4'
    } else if d == 5 {
        '5'
    } else if d == 6 {
        '6'
    } else if d == 7 {
        '7'
    } else if d == 8 {
        '8'
    } else {
        '9'
    }
}

/// Appends `v[start..end]`.
pub(crate) fn push_range(out: &mut String, v: &Vec<char>, start: usize, end: usize)
    requires
        start <= end <= v.len(),
    ensures
        final(out)@ == old(out)@ + v@.subrange(start as int, end as int),
{
    let mut i = start;
    while i < end
        invariant
            start <= i <= end <= v.len(),
            out@ == old(out)@ + v@.subrange(start as int, i as int),
        decreases end - i,
    {
        push_char(out, v[i]);
        proof {
            assert(v@.subrange(start as int, i + 1) =~= v@.subrange(start as int, i as int).push(
                v@[i as int],
            ));
        }
        i += 1;
    }
}

/// The digits of `n`, zero-padded on the left to more than `shorter` digits.
pub(crate) fn padded_digit_chars(n: u128, shorter: usize) -> (r: Vec<char>)
    ensures
        r@ == padded_digits(n as nat, shorter as nat + 1),
{
    let mut ds: Vec<char> = Vec::new();
    let mut cur: u128 = n;
    while cur >= 10
        invariant
            digits_of(n as nat) == digits_of(cur as nat) + ds@,
        decreases cur,
    {
        let c = char_of_digit(cur % 10);
        let ghost old_ds = ds@;
        ds.insert(0, c);
        proof {
            assert(digits_of(cur as nat) == digits_of((cur / 10) as nat).push(c));
            assert(digits_of((cur / 10) as nat) + ds@ =~= digits_of(cur as nat) + old_ds);
        }
        cur = cur / 10;
    }
    let c = char_of_digit(cur);
    let ghost old_ds = ds@;
    ds.insert(0, c);
    assert(ds@ =~= digits_of(n as nat));
    let dlen = ds.len();
    while ds.len() <= shorter
        invariant
            dlen == digits_of(n as nat).len(),
            ds.len() >= dlen,
            ds.len() <= shorter + 1 || ds.len() == dlen,
            ds@ == zeros((ds.len() - dlen) as nat) + digits_of(n as nat),
        decreases shorter + 1 - ds.len(),
    {
        ds.insert(0, '0');
        assert(ds@ =~= zeros((ds.len() - dlen) as nat) + digits_of(n as nat));
    }
    proof {
        if dlen >= shorter + 1 {
            assert(ds@ =~= digits_of(n as nat));
        }
    }
    ds
}

/// Appends the canonical text of a decimal.
pub fn write_decimal(d: &Decimal, out: &mut String)
    ensures
        final(out)@ == old(out)@ + decimal_text(*d),
{
    let neg = d.mantissa < 0;
    let mag: u128 = if neg {
        (0 - (d.mantissa + 1)) as u128 + 1
    } else {
        d.mantissa as u128
    };
    assert(mag as nat == magnitude(d.mantissa as int));
    if neg {
        push_char(out, '-');
    }
    let ghost after_sign = out@;
    let ds = padded_digit_chars(mag, d.scale as usize);
    let scale = d.scale as usize;
    if scale == 0 {
        push_range(out, &ds, 0, ds.len());
        assert(ds@.subrange(0, ds@.len() as int) =~= ds@);
    } else {
        let p = ds.len() - scale;
        push_range(out, &ds, 0, p);
        push_char(out, '.');
        push_range(out, &ds, p, ds.len());
        assert(ds@.subrange(0, p as int) =~= ds@.take(p as int));
        assert(ds@.subrange(p as int, ds@.len() as int) =~= ds@.skip(p as int));
    }
    proof {
        let t = unsigned_decimal_text(*d);
        assert(out@ =~= after_sign + t);
        if neg {
            assert(old(out)@ + decimal_text(*d) =~= old(out)@.push('-') + t);
        }
    }
}

} // verus!
