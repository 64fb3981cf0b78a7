//! Scalar text rules: the bare-token grammar, the quoting decision, string
//! escaping, and number rendering.

use vstd::prelude::*;
use vstd::string::StrSliceExecFns;
use crate::options::{delim_char, Delimiter};

verus! {

/// The text of the `null` literal.
pub open spec fn null_chars() -> Seq<char> {
    seq!['n', 'u', 'l', 'l']
}

/// The text of a boolean literal.
pub open spec fn bool_chars(b: bool) -> Seq<char> {
    if b {
        seq!['t', 'r', 'u', 'e']
    } else {
        seq!['f', 'a', 'l', 's', 'e']
    }
}

/// ASCII decimal digit.
pub open spec fn is_digit(c: char) -> bool {
    48 <= c as u32 && c as u32 <= 57
}

/// ASCII letter.
pub open spec fn is_alpha(c: char) -> bool {
    (65 <= c as u32 && c as u32 <= 90) || (97 <= c as u32 && c as u32 <= 122)
}

/// A character that may start a bare identifier: an ASCII letter or `_`.
pub open spec fn is_ident_start(c: char) -> bool {
    is_alpha(c) || c == '_'
}

/// A character that may continue a bare identifier.
pub open spec fn is_ident_char(c: char) -> bool {
    is_alpha(c) || is_digit(c) || c == '_'
}

/// A valid bare identifier: letter or underscore, then letters, digits or
/// underscores.
pub open spec fn is_valid_identifier_spec(s: Seq<char>) -> bool {
    &&& s.len() >= 1
    &&& is_ident_start(s[0])
    &&& forall|i: int| 1 <= i < s.len() ==> is_ident_char(#[trigger] s[i])
}

/// The index of the first non-digit character at or after `i`.
pub open spec fn skip_digits(s: Seq<char>, i: int) -> int
    decreases s.len() - i,
{
    if 0 <= i < s.len() && is_digit(s[i]) {
        skip_digits(s, i + 1)
    } else {
        i
    }
}

/// The optional exponent part of the numeric-literal grammar, starting at
/// `i`: `[eE][+-]?digits`, which must reach the end of the string.
pub open spec fn exp_part_ok(s: Seq<char>, i: int) -> bool {
    if i < s.len() && (s[i] == 'e' || s[i] == 'E') {
        let j = if i + 1 < s.len() && (s[i + 1] == '+' || s[i + 1] == '-') {
            i + 2
        } else {
            i + 1
        };
        if j < s.len() && is_digit(s[j]) {
            skip_digits(s, j) == s.len()
        } else {
            false
        }
    } else {
        i == s.len()
    }
}

/// The optional fraction part of the numeric-literal grammar, starting at
/// `i`: `.digits`, followed by the exponent part.
pub open spec fn frac_part_ok(s: Seq<char>, i: int) -> bool {
    if i < s.len() && s[i] == '.' {
        if i + 1 < s.len() && is_digit(s[i + 1]) {
            exp_part_ok(s, skip_digits(s, i + 1))
        } else {
            false
        }
    } else {
        exp_part_ok(s, i)
    }
}

/// Whether `s` parses as a number under the numeric-literal grammar:
/// optional leading `-`, digits, optional `.` + digits, optional exponent.
pub open spec fn looks_like_number_spec(s: Seq<char>) -> bool {
    let i0: int = if s.len() > 0 && s[0] == '-' {
        1
    } else {
        0
    };
    if i0 < s.len() && is_digit(s[i0]) {
        frac_part_ok(s, skip_digits(s, i0))
    } else {
        false
    }
}

/// A character that forces quoting wherever it appears: structural
/// punctuation, whitespace controls, or the active delimiter.
pub open spec fn is_special(c: char, delim: char) -> bool {
    ||| c == ':'
    ||| c == '"'
    ||| c == '\\'
    ||| c == '['
    ||| c == ']'
    ||| c == '{'
    ||| c == '}'
    ||| c == '\n'
    ||| c == '\r'
    ||| c == '\t'
    ||| c == delim
}

/// Whether a string, used as a key or a string scalar, must be quoted.
pub open spec fn needs_quoting_spec(s: Seq<char>, delim: char) -> bool {
    ||| s.len() == 0
    ||| s == bool_chars(true)
    ||| s == bool_chars(false)
    ||| s == null_chars()
    ||| (s.len() > 0 && s[0] == '-')
    ||| looks_like_number_spec(s)
    ||| (s.len() > 1 && s[0] == '0' && is_digit(s[1]))
    ||| (s.len() > 0 && (s[0] == ' ' || s[s.len() - 1] == ' '))
    ||| exists|i: int| 0 <= i < s.len() && is_special(#[trigger] s[i], delim)
}

/// The escaped form of one character inside a quoted string.
pub open spec fn escape_char(c: char) -> Seq<char> {
    if c == '\\' {
        seq!['\\', '\\']
    } else if c == '"' {
        seq!['\\', '"']
    } else if c == '\n' {
        seq!['\\', 'n']
    } else if c == '\r' {
        seq!['\\', 'r']
    } else if c == '\t' {
        seq!['\\', 't']
    } else {
        seq![c]
    }
}

/// The escaped form of the suffix of `s` starting at `i`.
pub open spec fn escape_from(s: Seq<char>, i: int) -> Seq<char>
    decreases s.len() - i,
{
    if 0 <= i < s.len() {
        escape_char(s[i]) + escape_from(s, i + 1)
    } else {
        Seq::empty()
    }
}

/// The escaped form of a whole string.
pub open spec fn escape_seq(s: Seq<char>) -> Seq<char> {
    escape_from(s, 0)
}

/// A string wrapped in double quotes with its contents escaped.
pub open spec fn quoted_seq(s: Seq<char>) -> Seq<char> {
    seq!['"'] + escape_seq(s) + seq!['"']
}

/// The emitted form of a key: quoted when the quoting rule requires it,
/// verbatim otherwise.
pub open spec fn key_seq(k: Seq<char>, delim: char) -> Seq<char> {
    if needs_quoting_spec(k, delim) {
        quoted_seq(k)
    } else {
        k
    }
}

/// The emitted form of a string scalar.
pub open spec fn string_scalar_seq(s: Seq<char>, delim: char) -> Seq<char> {
    if needs_quoting_spec(s, delim) {
        quoted_seq(s)
    } else {
        s
    }
}

/// Exec check of `is_digit`.
pub fn char_is_digit(c: char) -> (b: bool)
    ensures
        b == is_digit(c),
{
    let u = c as u32;
    48 <= u && u <= 57
}

/// Exec check of `is_ident_start`.
fn char_is_ident_start(c: char) -> (b: bool)
    ensures
        b == is_ident_start(c),
{
    let u = c as u32;
    (65 <= u && u <= 90) || (97 <= u && u <= 122) || c == '_'
}

/// Exec check of `is_ident_char`.
fn char_is_ident_char(c: char) -> (b: bool)
    ensures
        b == is_ident_char(c),
{
    let u = c as u32;
    (65 <= u && u <= 90) || (97 <= u && u <= 122) || (48 <= u && u <= 57) || c == '_'
}

/// Whether `s` is a valid bare identifier (ASCII letter or underscore start,
/// then letters, digits or underscores).
pub fn is_valid_identifier(s: &str) -> (b: bool)
    ensures
        b == is_valid_identifier_spec(s@),
{
    let n = s.unicode_len();
    if n == 0 {
        return false;
    }
    if !char_is_ident_start(s.get_char(0)) {
        return false;
    }
    let mut i: usize = 1;
    while i < n
        invariant
            1 <= i <= n,
            n == s@.len(),
            forall|j: int| 1 <= j < i ==> is_ident_char(#[trigger] s@[j]),
        decreases n - i,
    {
        if !char_is_ident_char(s.get_char(i)) {
            return false;
        }
        i = i + 1;
    }
    true
}

/// Whether `s` parses as a number under the numeric-literal grammar
/// (optional leading `-`, digits, optional `.` + digits, optional exponent).
pub fn looks_like_number(s: &str) -> (b: bool)
    ensures
        b == looks_like_number_spec(s@),
{
    let n = s.unicode_len();
    let mut i: usize = 0;
    if i < n && s.get_char(i) == '-' {
        i = 1;
    }
    if i >= n || !char_is_digit(s.get_char(i)) {
        return false;
    }
    i = scan_digits(s, i);
    if i < n && s.get_char(i) == '.' {
        proof {
            assert(frac_part_ok(s@, i as int) == (if i + 1 < s@.len() && is_digit(s@[i as int + 1]) {
                exp_part_ok(s@, skip_digits(s@, i as int + 1))
            } else {
                false
            }));
        }
        i = i + 1;
        if i >= n || !char_is_digit(s.get_char(i)) {
            return false;
        }
        i = scan_digits(s, i);
    }
    if i < n {
        let c = s.get_char(i);
        if c == 'e' || c == 'E' {
            i = i + 1;
            if i < n {
                let c2 = s.get_char(i);
                if c2 == '+' || c2 == '-' {
                    i = i + 1;
                }
            }
            if i >= n || !char_is_digit(s.get_char(i)) {
                return false;
            }
            i = scan_digits(s, i);
            return i == n;
        }
    }
    i == n
}

/// Advance past a run of digits, returning the index of the first non-digit.
fn scan_digits(s: &str, start: usize) -> (r: usize)
    requires
        start <= s@.len(),
    ensures
        r == skip_digits(s@, start as int),
        start <= r <= s@.len(),
{
    let n = s.unicode_len();
    let mut i: usize = start;
    while i < n && char_is_digit(s.get_char(i))
        invariant
            start <= i <= n,
            n == s@.len(),
            skip_digits(s@, start as int) == skip_digits(s@, i as int),
        decreases n - i,
    {
        i = i + 1;
    }
    i
}

/// Whether `s` is exactly one of the literal tokens `true`, `false`, `null`.
fn is_reserved_word(s: &str) -> (b: bool)
    ensures
        b == (s@ == bool_chars(true) || s@ == bool_chars(false) || s@ == null_chars()),
{
    let n = s.unicode_len();
    if n == 4 {
        let c0 = s.get_char(0);
        let c1 = s.get_char(1);
        let c2 = s.get_char(2);
        let c3 = s.get_char(3);
        let is_true = c0 == 't' && c1 == 'r' && c2 == 'u' && c3 == 'e';
        let is_null = c0 == 'n' && c1 == 'u' && c2 == 'l' && c3 == 'l';
        proof {
            if is_true {
                assert(s@ =~= bool_chars(true));
            }
            if is_null {
                assert(s@ =~= null_chars());
            }
        }
        is_true || is_null
    } else if n == 5 {
        let ok = s.get_char(0) == 'f' && s.get_char(1) == 'a' && s.get_char(2) == 'l'
            && s.get_char(3) == 's' && s.get_char(4) == 'e';
        proof {
            if ok {
                assert(s@ =~= bool_chars(false));
            }
        }
        ok
    } else {
        false
    }
}

/// Exec check of `is_special`.
fn char_is_special(c: char, delim: char) -> (b: bool)
    ensures
        b == is_special(c, delim),
{
    c == ':' || c == '"' || c == '\\' || c == '[' || c == ']' || c == '{' || c == '}' || c == '\n'
        || c == '\r' || c == '\t' || c == delim
}

/// Whether a string, used as an object key or a string scalar, must be
/// quoted under the active delimiter.
pub fn needs_quoting(s: &str, delimiter: Delimiter) -> (b: bool)
    ensures
        b == needs_quoting_spec(s@, delim_char(delimiter)),
{
    let n = s.unicode_len();
    if n == 0 {
        return true;
    }
    if is_reserved_word(s) {
        return true;
    }
    if s.get_char(0) == '-' {
        return true;
    }
    if looks_like_number(s) {
        return true;
    }
    if n > 1 && s.get_char(0) == '0' && char_is_digit(s.get_char(1)) {
        return true;
    }
    if s.get_char(0) == ' ' || s.get_char(n - 1) == ' ' {
        return true;
    }
    let delim = delimiter.char();
    let mut i: usize = 0;
    while i < n
        invariant
            0 <= i <= n,
            n == s@.len(),
            delim == delim_char(delimiter),
            forall|j: int| 0 <= j < i ==> !is_special(#[trigger] s@[j], delim),
        decreases n - i,
    {
        if char_is_special(s.get_char(i), delim) {
            return true;
        }
        i = i + 1;
    }
    false
}

/// Append every character of `s` to `buf`.
pub fn push_str_chars(buf: &mut Vec<char>, s: &str)
    ensures
        final(buf)@ == old(buf)@ + s@,
{
    let ghost orig = buf@;
    let n = s.unicode_len();
    let mut i: usize = 0;
    while i < n
        invariant
            0 <= i <= n,
            n == s@.len(),
            buf@ == orig + s@.take(i as int),
        decreases n - i,
    {
        buf.push(s.get_char(i));
        proof {
            assert(orig + s@.take(i + 1) =~= (orig + s@.take(i as int)).push(s@[i as int]));
        }
        i = i + 1;
    }
    proof {
        assert(orig + s@.take(n as int) =~= orig + s@);
    }
}

/// Append every character of `other` to `buf`.
pub fn append_chars(buf: &mut Vec<char>, other: &Vec<char>)
    ensures
        final(buf)@ == old(buf)@ + other@,
{
    let ghost orig = buf@;
    let n = other.len();
    let mut i: usize = 0;
    while i < n
        invariant
            0 <= i <= n,
            n == other@.len(),
            buf@ == orig + other@.take(i as int),
        decreases n - i,
    {
        buf.push(other[i]);
        proof {
            assert(orig + other@.take(i + 1) =~= (orig + other@.take(i as int)).push(other@[i as int]));
        }
        i = i + 1;
    }
    proof {
        assert(orig + other@.take(n as int) =~= orig + other@);
    }
}

/// Append the text `null`.
pub fn push_null(buf: &mut Vec<char>)
    ensures
        final(buf)@ == old(buf)@ + null_chars(),
{
    buf.push('n');
    buf.push('u');
    buf.push('l');
    buf.push('l');
    proof {
        assert(buf@ =~= old(buf)@ + null_chars());
    }
}

/// Append the text of a boolean literal.
pub fn push_bool(buf: &mut Vec<char>, b: bool)
    ensures
        final(buf)@ == old(buf)@ + bool_chars(b),
{
    if b {
        buf.push('t');
        buf.push('r');
        buf.push('u');
        buf.push('e');
    } else {
        buf.push('f');
        buf.push('a');
        buf.push('l');
        buf.push('s');
        buf.push('e');
    }
    proof {
        assert(buf@ =~= old(buf)@ + bool_chars(b));
    }
}

/// Append the escaped form of one character.
fn push_escaped_char(buf: &mut Vec<char>, c: char)
    ensures
        final(buf)@ == old(buf)@ + escape_char(c),
{
    if c == '\\' {
        buf.push('\\');
        buf.push('\\');
    } else if c == '"' {
        buf.push('\\');
        buf.push('"');
    } else if c == '\n' {
        buf.push('\\');
        buf.push('n');
    } else if c == '\r' {
        buf.push('\\');
        buf.push('r');
    } else if c == '\t' {
        buf.push('\\');
        buf.push('t');
    } else {
        buf.push(c);
    }
    proof {
        assert(buf@ =~= old(buf)@ + escape_char(c));
    }
}

/// Append the escaped form of `s`.
pub fn push_escaped(buf: &mut Vec<char>, s: &str)
    ensures
        final(buf)@ == old(buf)@ + escape_seq(s@),
{
    let ghost orig = buf@;
    let n = s.unicode_len();
    let mut i: usize = 0;
    while i < n
        invariant
            0 <= i <= n,
            n == s@.len(),
            orig + escape_from(s@, 0) == buf@ + escape_from(s@, i as int),
        decreases n - i,
    {
        push_escaped_char(buf, s.get_char(i));
        i = i + 1;
    }
}

/// Append the emitted form of a key: quoted when required, verbatim
/// otherwise.
pub fn push_key_chars(buf: &mut Vec<char>, key: &str, delimiter: Delimiter)
    ensures
        final(buf)@ == old(buf)@ + key_seq(key@, delim_char(delimiter)),
{
    if needs_quoting(key, delimiter) {
        buf.push('"');
        push_escaped(buf, key);
        buf.push('"');
        proof {
            assert(buf@ =~= old(buf)@ + quoted_seq(key@));
        }
    } else {
        push_str_chars(buf, key);
    }
}

/// Whether two string slices hold the same characters.
pub fn str_eq(a: &str, b: &str) -> (r: bool)
    ensures
        r == (a@ == b@),
{
    let na = a.unicode_len();
    let nb = b.unicode_len();
    if na != nb {
        return false;
    }
    let mut i: usize = 0;
    while i < na
        invariant
            0 <= i <= na,
            na == a@.len(),
            na == b@.len(),
            forall|j: int| 0 <= j < i ==> a@[j] == b@[j],
        decreases na - i,
    {
        if a.get_char(i) != b.get_char(i) {
            return false;
        }
        i = i + 1;
    }
    proof {
        assert(a@ =~= b@);
    }
    true
}

/// Builds a `String` from a sequence of characters.
///
/// Relies on `String`'s `FromIterator<char>` implementation: collecting
/// characters yields the string of exactly those characters in order.
#[verifier::external_body]
pub fn chars_to_string(v: Vec<char>) -> (s: String)
    ensures
        s@ == v@,
{
    v.into_iter().collect()
}

/// The key, quoted when the quoting rule requires it, as written in the
/// output.
pub fn format_key(key: &str, delimiter: Delimiter) -> (r: String)
    ensures
        r@ == key_seq(key@, delim_char(delimiter)),
{
    let mut buf: Vec<char> = Vec::new();
    push_key_chars(&mut buf, key, delimiter);
    chars_to_string(buf)
}

/// The body of a quoted string: backslash, double quote, newline, carriage
/// return and tab escaped, all other characters passed through.
pub fn escape_string(s: &str) -> (r: String)
    ensures
        r@ == escape_seq(s@),
{
    let mut buf: Vec<char> = Vec::new();
    push_escaped(&mut buf, s);
    chars_to_string(buf)
}

} // verus!
