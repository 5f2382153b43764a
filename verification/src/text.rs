//! Verified text building: decimal and hexadecimal rendering of integers,
//! and joining of line sequences, used by the symbol representations and the
//! code generator.

use vstd::prelude::*;
use vstd::string::StringExecFns;

verus! {

/// Equality of string slices.
///
/// Relies on `str`'s `PartialEq` implementation: two `&str` compare equal
/// exactly when they hold the same characters.
#[verifier::external_body]
pub fn str_eq(a: &str, b: &str) -> (r: bool)
    ensures
        r == (a@ == b@),
{
    a == b
}

/// Appends one character to a `String`.
///
/// Relies on `String::push`, which appends the given character to the end of
/// the string.
#[verifier::external_body]
pub fn push_char(s: &mut String, c: char)
    ensures
        final(s)@ == old(s)@.push(c),
{
    s.push(c)
}

/// The character for one decimal digit.
pub open spec fn digit_char(d: nat) -> char {
    if d == 0 {
        '0'
    } else if d == 1 {
        '1'
    } else if d == 2 {
        '2'
    } else if d == 3 {
        '3'
    } else if d == 4 {
        '4'
    } else if d == 5 {
        '5'
    } else if d == 6 {
        '6'
    } else if d == 7 {
        '7'
    } else if d == 8 {
        '8'
    } else {
        '9'
    }
}

/// The character for one hexadecimal digit, lower case.
pub open spec fn hex_digit_char(d: nat) -> char {
    if d < 10 {
        digit_char(d)
    } else if d == 10 {
        'a'
    } else if d == 11 {
        'b'
    } else if d == 12 {
        'c'
    } else if d == 13 {
        'd'
    } else if d == 14 {
        'e'
    } else {
        'f'
    }
}

/// The decimal rendering of `n`, most significant digit first, no leading
/// zeros (a single `'0'` for zero).
pub open spec fn dec_digits(n: nat) -> Seq<char>
    decreases n,
{
    if n < 10 {
        seq![digit_char(n)]
    } else {
        dec_digits(n / 10).push(digit_char(n % 10))
    }
}

/// The hexadecimal rendering of `n`, zero-padded on the left to at least
/// `width` digits.
pub open spec fn hex_digits(n: nat, width: nat) -> Seq<char>
    decreases n, width,
{
    if n < 16 && width <= 1 {
        seq![hex_digit_char(n)]
    } else {
        hex_digits(n / 16, if width == 0 {
            0
        } else {
            (width - 1) as nat
        }).push(hex_digit_char(n % 16))
    }
}

/// One decimal digit as a character.
fn digit_to_char(d: u64) -> (r: char)
    requires
        d < 10,
    ensures
        r == digit_char(d as nat),
{
    match d {
        0 => '0',
        1 => '1',
        2 => '2',
        3 => '3',
        4 => '4',
        5 => '5',
        6 => '6',
        7 => '7',
        8 => '8',
        _ => '9',
    }
}

/// One hexadecimal digit as a character, lower case.
fn hex_digit_to_char(d: u64) -> (r: char)
    requires
        d < 16,
    ensures
        r == hex_digit_char(d as nat),
{
    if d < 10 {
        digit_to_char(d)
    } else {
        match d {
            10 => 'a',
            11 => 'b',
            12 => 'c',
            13 => 'd',
            14 => 'e',
            _ => 'f',
        }
    }
}

/// Renders `n` in decimal.
pub fn dec_string(n: u64) -> (r: String)
    ensures
        r@ == dec_digits(n as nat),
    decreases n,
{
    if n < 10 {
        let mut s = String::new();
        push_char(&mut s, digit_to_char(n));
        s
    } else {
        let mut s = dec_string(n / 10);
        push_char(&mut s, digit_to_char(n % 10));
        s
    }
}

/// Renders `n` in hexadecimal, zero-padded to at least `width` digits.
pub fn hex_string(n: u64, width: u64) -> (r: String)
    ensures
        r@ == hex_digits(n as nat, width as nat),
    decreases n, width,
{
    if n < 16 && width <= 1 {
        let mut s = String::new();
        push_char(&mut s, hex_digit_to_char(n));
        s
    } else {
        let mut s = hex_string(n / 16, if width == 0 {
            0
        } else {
            width - 1
        });
        push_char(&mut s, hex_digit_to_char(n % 16));
        s
    }
}

/// The rendering of `Option<u8>` in the style of its debug form:
/// `Some(97)` or `None`.
pub open spec fn opt_byte_text(b: Option<u8>) -> Seq<char> {
    match b {
        Some(v) => "Some("@ + dec_digits(v as nat) + ")"@,
        None => "None"@,
    }
}

/// Renders an optional byte as `Some(97)` or `None`.
pub fn opt_byte_string(b: Option<u8>) -> (r: String)
    ensures
        r@ == opt_byte_text(b),
{
    match b {
        Some(v) => {
            let mut s = String::from_str("Some(");
            let d = dec_string(v as u64);
            s.append(d.as_str());
            s.append(")");
            s
        },
        None => String::from_str("None"),
    }
}

/// The first `i` of `texts` interleaved with `sep`, separator before every
/// element but the first.
pub open spec fn join_prefix(texts: Seq<Seq<char>>, sep: Seq<char>, i: int) -> Seq<char>
    decreases i,
{
    if i <= 0 {
        Seq::empty()
    } else if i == 1 {
        texts[0]
    } else {
        join_prefix(texts, sep, i - 1) + sep + texts[i - 1]
    }
}

/// `texts` interleaved with `sep`: empty for no element, and no trailing
/// separator.
pub open spec fn join_texts(texts: Seq<Seq<char>>, sep: Seq<char>) -> Seq<char> {
    join_prefix(texts, sep, texts.len() as int)
}

} // verus!
