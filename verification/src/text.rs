//! Rendering of numbers as text.
//!
//! The two formatting functions hand the work to the standard formatter;
//! what they return is stated over [`decimal_digits`] and [`hex_digits`].

use vstd::prelude::*;

verus! {

/// The character of a single digit `d < 16`, upper case above nine.
pub open spec fn digit_char(d: int) -> char {
    if d < 10 {
        (48 + d) as char
    } else {
        (55 + d) as char
    }
}

/// Decimal digits of `n`, most significant first, without padding.
pub open spec fn decimal_digits(n: nat) -> Seq<char>
    decreases n,
{
    if n < 10 {
        seq![digit_char(n as int)]
    } else {
        decimal_digits(n / 10).push(digit_char((n % 10) as int))
    }
}

/// Decimal text of a signed number: a minus sign, if negative, and its digits.
pub open spec fn decimal_text(n: int) -> Seq<char> {
    if n < 0 {
        seq!['-'] + decimal_digits((-n) as nat)
    } else {
        decimal_digits(n as nat)
    }
}

/// Upper-case hexadecimal digits of `n`, padded with zeros on the left to
/// at least `width` characters.
pub open spec fn hex_digits(n: nat, width: nat) -> Seq<char>
    decreases n, width,
{
    if n < 16 && width <= 1 {
        seq![digit_char(n as int)]
    } else if n < 16 {
        seq!['0'] + hex_digits(n, (width - 1) as nat)
    } else {
        hex_digits(
            n / 16,
            if width > 0 {
                (width - 1) as nat
            } else {
                0
            },
        ) + seq![digit_char((n % 16) as int)]
    }
}

/// Whether a character is a decimal digit.
pub open spec fn is_digit(c: char) -> bool {
    '0' <= c <= '9'
}

/// The value of the first `n` digits of a text, most significant first.
pub open spec fn digits_value(text: Seq<char>, n: int) -> int
    decreases n,
{
    if n <= 0 {
        0
    } else {
        digits_value(text, n - 1) * 10 + (text[n - 1] as u8 - 48)
    }
}

/// Whether the characters of a text from `from` on are digits, and there is
/// at least one.
pub open spec fn all_digits(text: Seq<char>, from: int) -> bool {
    from < text.len() && forall|i: int| from <= i < text.len() ==> is_digit(#[trigger] text[i])
}

/// Decimal text of `n`, as `format!("{}", n)` gives it: the standard
/// formatter writes a signed integer in base ten, with a leading minus sign
/// for a negative value and no padding.
#[verifier::external_body]
pub(crate) fn decimal(n: i128) -> (s: String)
    ensures
        s@ == decimal_text(n as int),
{
    format!("{}", n)
}

/// Upper-case hexadecimal text of `n`, as `format!("{:0width$X}", n)` gives
/// it: the standard formatter writes the digits in base sixteen with the
/// letters A to F and fills with zeros on the left up to `width` characters.
/// The width is a byte, well within what the formatter takes.
#[verifier::external_body]
pub(crate) fn hex_upper(n: u64, width: u8) -> (s: String)
    ensures
        s@ == hex_digits(n as nat, width as nat),
{
    format!("{:0width$X}", n, width = usize::from(width))
}

/// Appends a character to a string, as `String::push` does.
#[verifier::external_body]
pub(crate) fn push_char(text: &mut String, c: char)
    ensures
        final(text)@ == old(text)@.push(c),
{
    text.push(c)
}

/// The characters of a string.
pub fn chars_of(s: &str) -> (v: Vec<char>)
    ensures
        v@ == s@,
{
    let mut v: Vec<char> = Vec::new();
    for c in it: s.chars()
        invariant
            it.seq() == s@,
            v@ == it.seq().subrange(0, it.index() as int),
    {
        v.push(c);
        assert(v@ =~= it.seq().subrange(0, it.index() + 1));
    }
    assert(v@ =~= s@);
    v
}

/// The string made of the characters from `from` up to but without `to`.
pub fn string_of(chars: &Vec<char>, from: usize, to: usize) -> (s: String)
    requires
        from <= to <= chars@.len(),
    ensures
        s@ == chars@.subrange(from as int, to as int),
{
    let mut s = String::new();
    let mut i: usize = from;
    while i < to
        invariant
            from <= i <= to,
            to <= chars@.len(),
            s@ == chars@.subrange(from as int, i as int),
        decreases to - i,
    {
        push_char(&mut s, chars[i]);
        assert(s@ =~= chars@.subrange(from as int, i + 1));
        i += 1;
    }
    s
}

} // verus!
