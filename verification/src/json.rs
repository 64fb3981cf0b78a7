//! Compact JSON rendering of a value, used as the scalar fallback for a
//! composite element inside a nested array of the expanded list form.

use vstd::prelude::*;
use vstd::string::StrSliceExecFns;
use crate::number::{digit_char, num_seq, push_number};
use crate::text::{bool_chars, null_chars, push_bool, push_null};
use crate::value::Value;

verus! {

/// The hexadecimal digit character for `d` in `0..16`, lower case.
pub open spec fn hex_char(d: int) -> char {
    if d < 10 {
        digit_char(d)
    } else if d == 10 {
        'a'
    } else if d == 11 {
        'b'
    } else if d == 12 {
        'c'
    } else if d == 13 {
        'd'
    } else if d == 14 {
        'e'
    } else {
        'f'
    }
}

/// The JSON escape of one character: quote, backslash and the named control
/// escapes, a `\u00XX` escape for other control characters, and every other
/// character verbatim.
pub open spec fn json_escape_char(c: char) -> Seq<char> {
    if c == '"' {
        seq!['\\', '"']
    } else if c == '\\' {
        seq!['\\', '\\']
    } else if c == '\n' {
        seq!['\\', 'n']
    } else if c == '\r' {
        seq!['\\', 'r']
    } else if c == '\t' {
        seq!['\\', 't']
    } else if c == '\u{8}' {
        seq!['\\', 'b']
    } else if c == '\u{c}' {
        seq!['\\', 'f']
    } else if (c as u32) < 32 {
        seq!['\\', 'u', '0', '0', hex_char(((c as u32) as int) / 16), hex_char(((c as u32) as int) % 16)]
    } else {
        seq![c]
    }
}

/// The JSON escape of the suffix of `s` starting at `i`.
pub open spec fn json_escape_from(s: Seq<char>, i: int) -> Seq<char>
    decreases s.len() - i,
{
    if 0 <= i < s.len() {
        json_escape_char(s[i]) + json_escape_from(s, i + 1)
    } else {
        Seq::empty()
    }
}

/// A JSON string literal: quotes around the escaped text.
pub open spec fn json_string(s: Seq<char>) -> Seq<char> {
    seq!['"'] + json_escape_from(s, 0) + seq!['"']
}

/// The compact JSON text of a value. Numbers use the same rendering as the
/// scalar rule, so a non-finite number reads `null`.
pub open spec fn json_seq(v: Value) -> Seq<char>
    decreases v, 0int,
{
    match v {
        Value::Null => null_chars(),
        Value::Bool(b) => bool_chars(b),
        Value::Number(n) => num_seq(n),
        Value::String(s) => json_string(s@),
        Value::Array(a) => seq!['['] + json_elems_from(a@, 0) + seq![']'],
        Value::Object(f) => seq!['{'] + json_fields_from(f@, 0) + seq!['}'],
    }
}

/// The comma-joined JSON texts of the elements from index `i` on.
pub open spec fn json_elems_from(elems: Seq<Value>, i: int) -> Seq<char>
    decreases elems, elems.len() - i,
{
    if 0 <= i < elems.len() {
        (if i > 0 {
            seq![',']
        } else {
            Seq::empty()
        }) + json_seq(elems[i]) + json_elems_from(elems, i + 1)
    } else {
        Seq::empty()
    }
}

/// The comma-joined JSON `"key":value` members from index `i` on.
pub open spec fn json_fields_from(fields: Seq<(String, Value)>, i: int) -> Seq<char>
    decreases fields, fields.len() - i,
{
    if 0 <= i < fields.len() {
        (if i > 0 {
            seq![',']
        } else {
            Seq::empty()
        }) + json_string(fields[i].0@) + seq![':'] + json_seq(fields[i].1) + json_fields_from(
            fields,
            i + 1,
        )
    } else {
        Seq::empty()
    }
}

/// The hexadecimal digit character for `d < 16`.
fn hex_ch(d: u32) -> (c: char)
    requires
        d < 16,
    ensures
        c == hex_char(d as int),
{
    if d == 0 {
        '0'
    } else if d == 1 {
        '1'
    } else if d == 2 {
        '2'
    } else if d == 3 {
        '3'
    } else if d == 4 {
        '4'
    } else if d == 5 {
        '5'
    } else if d == 6 {
        '6'
    } else if d == 7 {
        '7'
    } else if d == 8 {
        '8'
    } else if d == 9 {
        '9'
    } else if d == 10 {
        'a'
    } else if d == 11 {
        'b'
    } else if d == 12 {
        'c'
    } else if d == 13 {
        'd'
    } else if d == 14 {
        'e'
    } else {
        'f'
    }
}

/// Append the JSON escape of one character.
fn push_json_escaped_char(buf: &mut Vec<char>, c: char)
    ensures
        final(buf)@ == old(buf)@ + json_escape_char(c),
{
    if c == '"' {
        buf.push('\\');
        buf.push('"');
    } else if c == '\\' {
        buf.push('\\');
        buf.push('\\');
    } else if c == '\n' {
        buf.push('\\');
        buf.push('n');
    } else if c == '\r' {
        buf.push('\\');
        buf.push('r');
    } else if c == '\t' {
        buf.push('\\');
        buf.push('t');
    } else if c == '\u{8}' {
        buf.push('\\');
        buf.push('b');
    } else if c == '\u{c}' {
        buf.push('\\');
        buf.push('f');
    } else if (c as u32) < 32 {
        let u = c as u32;
        buf.push('\\');
        buf.push('u');
        buf.push('0');
        buf.push('0');
        buf.push(hex_ch(u / 16));
        buf.push(hex_ch(u % 16));
    } else {
        buf.push(c);
    }
    proof {
        assert(buf@ =~= old(buf)@ + json_escape_char(c));
    }
}

/// Append a JSON string literal for `s`.
fn push_json_string(buf: &mut Vec<char>, s: &str)
    ensures
        final(buf)@ == old(buf)@ + json_string(s@),
{
    let ghost orig = buf@;
    buf.push('"');
    let n = s.unicode_len();
    let mut i: usize = 0;
    while i < n
        invariant
            0 <= i <= n,
            n == s@.len(),
            orig + seq!['"'] + json_escape_from(s@, 0) == buf@ + json_escape_from(s@, i as int),
        decreases n - i,
    {
        push_json_escaped_char(buf, s.get_char(i));
        i = i + 1;
    }
    buf.push('"');
    proof {
        assert(buf@ =~= orig + json_string(s@));
    }
}

/// Append the compact JSON text of a value.
pub fn push_json(buf: &mut Vec<char>, v: &Value)
    ensures
        final(buf)@ == old(buf)@ + json_seq(*v),
    decreases *v,
{
    match v {
        Value::Null => push_null(buf),
        Value::Bool(b) => push_bool(buf, *b),
        Value::Number(n) => push_number(buf, n),
        Value::String(s) => push_json_string(buf, s.as_str()),
        Value::Array(a) => {
            let ghost orig = buf@;
            buf.push('[');
            let n = a.len();
            let mut i: usize = 0;
            while i < n
                invariant
                    0 <= i <= n,
                    n == a@.len(),
                    *v == Value::Array(*a),
                    orig + seq!['['] + json_elems_from(a@, 0) == buf@ + json_elems_from(
                        a@,
                        i as int,
                    ),
                decreases n - i,
            {
                if i > 0 {
                    buf.push(',');
                }
                proof {
                    crate::value::lemma_array_elem_decreases(*v, i as int);
                }
                push_json(buf, &a[i]);
                i = i + 1;
            }
            buf.push(']');
            proof {
                assert(buf@ =~= orig + json_seq(*v));
            }
        },
        Value::Object(f) => {
            let ghost orig = buf@;
            buf.push('{');
            let n = f.len();
            let mut i: usize = 0;
            while i < n
                invariant
                    0 <= i <= n,
                    n == f@.len(),
                    *v == Value::Object(*f),
                    orig + seq!['{'] + json_fields_from(f@, 0) == buf@ + json_fields_from(
                        f@,
                        i as int,
                    ),
                decreases n - i,
            {
                if i > 0 {
                    buf.push(',');
                }
                push_json_string(buf, f[i].0.as_str());
                buf.push(':');
                proof {
                    crate::value::lemma_object_field_value_decreases(*v, i as int);
                }
                push_json(buf, &f[i].1);
                i = i + 1;
            }
            buf.push('}');
            proof {
                assert(buf@ =~= orig + json_seq(*v));
            }
        },
    }
}

} // verus!
