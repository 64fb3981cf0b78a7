//! Number rendering: integers in plain decimal, non-finite values as
//! `null`, and decimal text with the exponent-avoiding fallback.

use vstd::prelude::*;
use vstd::string::StrSliceExecFns;
use crate::text::{append_chars, null_chars, push_null, push_str_chars};
use crate::value::Number;

verus! {

/// The decimal digit character for `d` in `0..10`.
pub open spec fn digit_char(d: int) -> char {
    if d == 0 {
        '0'
    } else if d == 1 {
        '1'
    } else if d == 2 {
        '2'
    } else if d == 3 {
        '3'
    } else if d == 4 {
        '4'
    } else if d == 5 {
        '5'
    } else if d == 6 {
        '6'
    } else if d == 7 {
        '7'
    } else if d == 8 {
        '8'
    } else {
        '9'
    }
}

/// The decimal digits of a non-negative integer, most significant first.
pub open spec fn udec(n: nat) -> Seq<char>
    decreases n,
{
    if n < 10 {
        seq![digit_char(n as int)]
    } else {
        udec(n / 10) + seq![digit_char((n % 10) as int)]
    }
}

/// The plain decimal rendering of an integer: optional `-`, then digits.
pub open spec fn int_seq(i: int) -> Seq<char> {
    if i < 0 {
        seq!['-'] + udec((-i) as nat)
    } else {
        udec(i as nat)
    }
}

/// Whether the text contains an exponent marker.
pub open spec fn has_exp(s: Seq<char>) -> bool {
    exists|i: int| 0 <= i < s.len() && (#[trigger] s[i] == 'e' || s[i] == 'E')
}

/// The text with every trailing occurrence of `c` removed.
pub open spec fn drop_trailing(s: Seq<char>, c: char) -> Seq<char>
    decreases s.len(),
{
    if s.len() > 0 && s[s.len() - 1] == c {
        drop_trailing(s.drop_last(), c)
    } else {
        s
    }
}

/// The rendering of a number: integers in plain decimal; NaN or infinity as
/// `null`; other finite values by their shortest positional decimal text,
/// falling back to the high-precision text with trailing zeros (then a
/// trailing point) stripped whenever the shortest text carries an exponent.
pub open spec fn num_seq(n: Number) -> Seq<char> {
    match n {
        Number::Int(i) => int_seq(i as int),
        Number::NonFinite => null_chars(),
        Number::Dec { plain, precise } => if has_exp(plain@) {
            drop_trailing(drop_trailing(precise@, '0'), '.')
        } else {
            plain@
        },
    }
}

/// The digit character for `d < 10`.
fn digit_ch(d: u64) -> (c: char)
    requires
        d < 10,
    ensures
        c == digit_char(d as int),
{
    if d == 0 {
        '0'
    } else if d == 1 {
        '1'
    } else if d == 2 {
        '2'
    } else if d == 3 {
        '3'
    } else if d == 4 {
        '4'
    } else if d == 5 {
        '5'
    } else if d == 6 {
        '6'
    } else if d == 7 {
        '7'
    } else if d == 8 {
        '8'
    } else {
        '9'
    }
}

/// Append the decimal digits of `n`.
fn push_udec(buf: &mut Vec<char>, n: u64)
    ensures
        final(buf)@ == old(buf)@ + udec(n as nat),
    decreases n,
{
    if n < 10 {
        buf.push(digit_ch(n));
        proof {
            assert(buf@ =~= old(buf)@ + udec(n as nat));
        }
    } else {
        push_udec(buf, n / 10);
        buf.push(digit_ch(n % 10));
        proof {
            assert(buf@ =~= old(buf)@ + udec(n as nat));
        }
    }
}

/// Append the plain decimal rendering of `i`.
pub fn push_int(buf: &mut Vec<char>, i: i64)
    ensures
        final(buf)@ == old(buf)@ + int_seq(i as int),
{
    if i >= 0 {
        push_udec(buf, i as u64);
    } else {
        buf.push('-');
        let mag: u64 = (-(i as i128)) as u64;
        proof {
            assert(mag as int == -(i as int));
        }
        push_udec(buf, mag);
        proof {
            assert(buf@ =~= old(buf)@ + int_seq(i as int));
        }
    }
}

/// Append the decimal digits of a length.
pub fn push_usize(buf: &mut Vec<char>, n: usize)
    ensures
        final(buf)@ == old(buf)@ + udec(n as nat),
{
    push_udec(buf, n as u64);
}

/// Whether `s` contains an exponent marker.
fn str_has_exp(s: &str) -> (b: bool)
    ensures
        b == has_exp(s@),
{
    let n = s.unicode_len();
    let mut i: usize = 0;
    while i < n
        invariant
            0 <= i <= n,
            n == s@.len(),
            forall|j: int| 0 <= j < i ==> !(#[trigger] s@[j] == 'e' || s@[j] == 'E'),
        decreases n - i,
    {
        let c = s.get_char(i);
        if c == 'e' || c == 'E' {
            return true;
        }
        i = i + 1;
    }
    false
}

/// Remove every trailing occurrence of `c` from `buf`.
pub(crate) fn pop_trailing(buf: &mut Vec<char>, c: char)
    ensures
        final(buf)@ == drop_trailing(old(buf)@, c),
{
    while buf.len() > 0 && buf[buf.len() - 1] == c
        invariant
            drop_trailing(old(buf)@, c) == drop_trailing(buf@, c),
        decreases buf.len(),
    {
        buf.pop();
    }
}

/// Append the rendering of a number.
pub fn push_number(buf: &mut Vec<char>, n: &Number)
    ensures
        final(buf)@ == old(buf)@ + num_seq(*n),
{
    match n {
        Number::Int(i) => push_int(buf, *i),
        Number::NonFinite => push_null(buf),
        Number::Dec { plain, precise } => {
            if str_has_exp(plain.as_str()) {
                let mut t: Vec<char> = Vec::new();
                push_str_chars(&mut t, precise.as_str());
                pop_trailing(&mut t, '0');
                pop_trailing(&mut t, '.');
                append_chars(buf, &t);
            } else {
                push_str_chars(buf, plain.as_str());
            }
        },
    }
}

} // verus!
