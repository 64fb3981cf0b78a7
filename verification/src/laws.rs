//! Line-shape laws of the encoder, proved against the specification model:
//! flat objects emit one line per field, inline primitive arrays emit a
//! single line, tabular arrays emit one body line per element, and the
//! quoting rule protects unquoted text from being misread.

use vstd::prelude::*;
use crate::encode::{
    detect_tabular_spec, enc_array, enc_field, enc_obj_from, encode_spec, field_line, first_keys, fold_suffix,
    header_seq, indent_seq, join_keys_from, join_scalars_from, row_cells_from, row_ok, scalar_seq,
    tab_rows_from,
};
use crate::number::{drop_trailing, has_exp, int_seq, num_seq, udec};
use crate::options::{delim_char, header_sym, Delimiter, ToonOptions};
use crate::text::{
    bool_chars, escape_char, escape_from, escape_seq, is_special, key_seq, looks_like_number_spec,
    needs_quoting_spec, null_chars, quoted_seq, string_scalar_seq,
};
use crate::value::{all_primitive, get_or_null, is_primitive, lookup, lookup_from, Number, Value};

verus! {

/// No occurrence of `c` anywhere in `s`.
pub open spec fn no_char(s: Seq<char>, c: char) -> bool {
    forall|i: int| 0 <= i < s.len() ==> s[i] != c
}

/// The number of occurrences of `c` in `s`.
pub open spec fn count_char(s: Seq<char>, c: char) -> int
    decreases s.len(),
{
    if s.len() == 0 {
        0
    } else {
        (if s[0] == c {
            1int
        } else {
            0int
        }) + count_char(s.drop_first(), c)
    }
}

/// A number whose carried decimal texts hold no newline; integral and
/// non-finite numbers are always well formed.
pub open spec fn number_wf(n: Number) -> bool {
    match n {
        Number::Dec { plain, precise } => no_char(plain@, '\n') && no_char(precise@, '\n'),
        _ => true,
    }
}

/// A primitive whose rendering can be confined to one line: only a decimal
/// number's carried text could smuggle a newline in.
pub open spec fn scalar_wf(v: Value) -> bool {
    match v {
        Value::Number(n) => number_wf(n),
        _ => true,
    }
}

/// An object all of whose immediate field values are well-formed scalars.
pub open spec fn fields_wf(v: Value) -> bool {
    v is Object ==> forall|j: int|
        0 <= j < v->Object_0@.len() ==> scalar_wf(#[trigger] v->Object_0@[j].1)
}

proof fn lemma_no_char_app(a: Seq<char>, b: Seq<char>, c: char)
    requires
        no_char(a, c),
        no_char(b, c),
    ensures
        no_char(a + b, c),
{
    assert forall|i: int| 0 <= i < (a + b).len() implies (a + b)[i] != c by {
        if i < a.len() {
            assert((a + b)[i] == a[i]);
        } else {
            assert((a + b)[i] == b[i - a.len()]);
        }
    }
}

proof fn lemma_count_app(a: Seq<char>, b: Seq<char>, c: char)
    ensures
        count_char(a + b, c) == count_char(a, c) + count_char(b, c),
    decreases a.len(),
{
    if a.len() == 0 {
        assert(a + b =~= b);
    } else {
        assert((a + b).drop_first() =~= a.drop_first() + b);
        lemma_count_app(a.drop_first(), b, c);
    }
}

proof fn lemma_count_single(c: char)
    ensures
        count_char(seq![c], c) == 1,
{
    assert(seq![c].drop_first() =~= Seq::<char>::empty());
    assert(count_char(Seq::<char>::empty(), c) == 0);
    assert(count_char(seq![c], c) == 1 + count_char(seq![c].drop_first(), c));
}

proof fn lemma_no_char_count(s: Seq<char>, c: char)
    requires
        no_char(s, c),
    ensures
        count_char(s, c) == 0,
    decreases s.len(),
{
    if s.len() > 0 {
        lemma_no_char_count(s.drop_first(), c);
    }
}

proof fn lemma_udec_no_nl(n: nat)
    ensures
        no_char(udec(n), '\n'),
    decreases n,
{
    if n >= 10 {
        lemma_udec_no_nl(n / 10);
        lemma_no_char_app(udec(n / 10), seq![crate::number::digit_char((n % 10) as int)], '\n');
    }
}

proof fn lemma_int_no_nl(i: int)
    ensures
        no_char(int_seq(i), '\n'),
{
    if i < 0 {
        lemma_udec_no_nl((-i) as nat);
        lemma_no_char_app(seq!['-'], udec((-i) as nat), '\n');
    } else {
        lemma_udec_no_nl(i as nat);
    }
}

proof fn lemma_drop_trailing_no_char(s: Seq<char>, c: char, c2: char)
    requires
        no_char(s, c2),
    ensures
        no_char(drop_trailing(s, c), c2),
    decreases s.len(),
{
    if s.len() > 0 && s[s.len() - 1] == c {
        assert(forall|i: int| 0 <= i < s.drop_last().len() ==> s.drop_last()[i] == s[i]);
        lemma_drop_trailing_no_char(s.drop_last(), c, c2);
    }
}

proof fn lemma_num_no_nl(n: Number)
    requires
        number_wf(n),
    ensures
        no_char(num_seq(n), '\n'),
{
    match n {
        Number::Int(i) => lemma_int_no_nl(i as int),
        Number::NonFinite => {},
        Number::Dec { plain, precise } => {
            if has_exp(plain@) {
                lemma_drop_trailing_no_char(precise@, '0', '\n');
                lemma_drop_trailing_no_char(drop_trailing(precise@, '0'), '.', '\n');
            }
        },
    }
}

proof fn lemma_escape_no_nl(s: Seq<char>, i: int)
    ensures
        no_char(escape_from(s, i), '\n'),
    decreases s.len() - i,
{
    if 0 <= i < s.len() {
        lemma_escape_no_nl(s, i + 1);
        assert(no_char(escape_char(s[i]), '\n'));
        lemma_no_char_app(escape_char(s[i]), escape_from(s, i + 1), '\n');
    }
}

proof fn lemma_quoted_no_nl(s: Seq<char>)
    ensures
        no_char(quoted_seq(s), '\n'),
{
    lemma_escape_no_nl(s, 0);
    lemma_no_char_app(seq!['"'], escape_seq(s), '\n');
    lemma_no_char_app(seq!['"'] + escape_seq(s), seq!['"'], '\n');
}

proof fn lemma_unquoted_no_nl(s: Seq<char>, d: char)
    requires
        !needs_quoting_spec(s, d),
    ensures
        no_char(s, '\n'),
{
    assert forall|i: int| 0 <= i < s.len() implies s[i] != '\n' by {
        if s[i] == '\n' {
            assert(is_special(s[i], d));
        }
    }
}

proof fn lemma_scalar_no_nl(v: Value, d: char)
    requires
        is_primitive(v),
        scalar_wf(v),
    ensures
        no_char(scalar_seq(v, d), '\n'),
{
    match v {
        Value::Number(n) => lemma_num_no_nl(n),
        Value::String(s) => {
            if needs_quoting_spec(s@, d) {
                lemma_quoted_no_nl(s@);
            } else {
                lemma_unquoted_no_nl(s@, d);
            }
        },
        _ => {},
    }
}

proof fn lemma_key_no_nl(k: Seq<char>, d: char)
    ensures
        no_char(key_seq(k, d), '\n'),
{
    if needs_quoting_spec(k, d) {
        lemma_quoted_no_nl(k);
    } else {
        lemma_unquoted_no_nl(k, d);
    }
}

proof fn lemma_indent_no_nl(depth: nat, width: nat)
    ensures
        no_char(indent_seq(depth, width), '\n'),
{
}

proof fn lemma_header_no_nl(ind: Seq<char>, key: Seq<char>, n: nat, delimiter: Delimiter)
    requires
        no_char(ind, '\n'),
        no_char(key, '\n'),
    ensures
        no_char(header_seq(ind, key, n, header_sym(delimiter)), '\n'),
{
    lemma_udec_no_nl(n);
    lemma_no_char_app(ind, key, '\n');
    lemma_no_char_app(ind + key, seq!['['], '\n');
    lemma_no_char_app(ind + key + seq!['['], udec(n), '\n');
    assert(no_char(header_sym(delimiter), '\n'));
    lemma_no_char_app(ind + key + seq!['['] + udec(n), header_sym(delimiter), '\n');
    lemma_no_char_app(ind + key + seq!['['] + udec(n) + header_sym(delimiter), seq![']'], '\n');
}

proof fn lemma_join_scalars_no_nl(elems: Seq<Value>, i: int, delimiter: Delimiter)
    requires
        forall|t: int| 0 <= t < elems.len() ==> is_primitive(#[trigger] elems[t]),
        forall|t: int| 0 <= t < elems.len() ==> scalar_wf(#[trigger] elems[t]),
    ensures
        no_char(join_scalars_from(elems, i, delim_char(delimiter)), '\n'),
    decreases elems.len() - i,
{
    let d = delim_char(delimiter);
    if 0 <= i < elems.len() {
        lemma_join_scalars_no_nl(elems, i + 1, delimiter);
        lemma_scalar_no_nl(elems[i], d);
        let sep: Seq<char> = if i > 0 {
            seq![d]
        } else {
            Seq::empty()
        };
        assert(no_char(sep, '\n'));
        lemma_no_char_app(sep, scalar_seq(elems[i], d), '\n');
        lemma_no_char_app(
            sep + scalar_seq(elems[i], d),
            join_scalars_from(elems, i + 1, d),
            '\n',
        );
    }
}

/// Quoting law: when the quoting rule leaves a string unquoted, its
/// verbatim emission cannot be misread as a boolean, as `null`, or as a
/// number under the numeric-literal grammar.
pub proof fn lemma_unquoted_not_misread(s: Seq<char>, delim: char)
    requires
        !needs_quoting_spec(s, delim),
    ensures
        string_scalar_seq(s, delim) == s,
        s != bool_chars(true),
        s != bool_chars(false),
        s != null_chars(),
        !looks_like_number_spec(s),
{
}

/// The shape of one flat field: margin, formatted key, `: `, scalar.
pub open spec fn flat_line(k: String, v: Value, depth: nat, opts: ToonOptions) -> Seq<char> {
    indent_seq(depth, opts.indent as nat) + key_seq(k@, delim_char(opts.delimiter)) + seq![
        ':',
        ' ',
    ] + scalar_seq(v, delim_char(opts.delimiter))
}

/// The newline-joined flat lines of the fields from index `i` on.
pub open spec fn flat_lines_from(
    fields: Seq<(String, Value)>,
    i: int,
    depth: nat,
    opts: ToonOptions,
) -> Seq<char>
    decreases fields.len() - i,
{
    if 0 <= i < fields.len() {
        (if i > 0 {
            seq!['\n']
        } else {
            Seq::empty()
        }) + flat_line(fields[i].0, fields[i].1, depth, opts) + flat_lines_from(
            fields,
            i + 1,
            depth,
            opts,
        )
    } else {
        Seq::empty()
    }
}

proof fn lemma_flat_field(k: String, v: Value, depth: nat, opts: ToonOptions)
    requires
        is_primitive(v),
    ensures
        field_line(k, v, depth, opts) == flat_line(k, v, depth, opts),
{
    let d = delim_char(opts.delimiter);
    assert(fold_suffix(v, opts.flatten_depth as int, d).0.len() == 0);
    assert(enc_field(k@, v, depth, opts) == flat_line(k, v, depth, opts));
}

/// One line per leaf: an object all of whose values are primitive scalars
/// encodes as its fields' flat lines joined by single newlines, each line
/// free of embedded newlines, so the output has exactly one line per field.
pub proof fn lemma_flat_object_lines(
    fields: Seq<(String, Value)>,
    i: int,
    depth: nat,
    opts: ToonOptions,
)
    requires
        0 <= i <= fields.len(),
        forall|t: int| 0 <= t < fields.len() ==> is_primitive(#[trigger] fields[t].1),
        forall|t: int| 0 <= t < fields.len() ==> scalar_wf(#[trigger] fields[t].1),
    ensures
        enc_obj_from(fields, i, depth, opts) == flat_lines_from(fields, i, depth, opts),
        forall|t: int|
            0 <= t < fields.len() ==> no_char(
                #[trigger] flat_line(fields[t].0, fields[t].1, depth, opts),
                '\n',
            ),
        count_char(enc_obj_from(fields, i, depth, opts), '\n') == if i < fields.len() {
            fields.len() - i - 1 + (if i > 0 {
                1int
            } else {
                0int
            })
        } else {
            0int
        },
    decreases fields.len() - i,
{
    let d = delim_char(opts.delimiter);
    assert forall|t: int| 0 <= t < fields.len() implies no_char(
        #[trigger] flat_line(fields[t].0, fields[t].1, depth, opts),
        '\n',
    ) by {
        lemma_indent_no_nl(depth, opts.indent as nat);
        lemma_key_no_nl(fields[t].0@, d);
        lemma_scalar_no_nl(fields[t].1, d);
        let ind = indent_seq(depth, opts.indent as nat);
        let fk = key_seq(fields[t].0@, d);
        lemma_no_char_app(ind, fk, '\n');
        lemma_no_char_app(ind + fk, seq![':', ' '], '\n');
        lemma_no_char_app(ind + fk + seq![':', ' '], scalar_seq(fields[t].1, d), '\n');
    }
    if i < fields.len() {
        lemma_flat_object_lines(fields, i + 1, depth, opts);
        lemma_flat_field(fields[i].0, fields[i].1, depth, opts);
        let sep: Seq<char> = if i > 0 {
            seq!['\n']
        } else {
            Seq::empty()
        };
        let line = flat_line(fields[i].0, fields[i].1, depth, opts);
        let rest = flat_lines_from(fields, i + 1, depth, opts);
        lemma_count_app(sep, line, '\n');
        lemma_count_app(sep + line, rest, '\n');
        lemma_no_char_count(line, '\n');
        if i > 0 {
            lemma_count_single('\n');
            assert(sep == seq!['\n']);
        }
    }
}

proof fn lemma_flat_lines_last(fields: Seq<(String, Value)>, i: int, depth: nat, opts: ToonOptions)
    requires
        0 <= i < fields.len(),
        forall|t: int| 0 <= t < fields.len() ==> is_primitive(#[trigger] fields[t].1),
        forall|t: int| 0 <= t < fields.len() ==> scalar_wf(#[trigger] fields[t].1),
    ensures
        flat_lines_from(fields, i, depth, opts).len() > 0,
        flat_lines_from(fields, i, depth, opts).last() != '\n',
    decreases fields.len() - i,
{
    lemma_flat_object_lines(fields, i, depth, opts);
    let sep: Seq<char> = if i > 0 {
        seq!['\n']
    } else {
        Seq::empty()
    };
    let line = flat_line(fields[i].0, fields[i].1, depth, opts);
    let rest = flat_lines_from(fields, i + 1, depth, opts);
    let s = flat_lines_from(fields, i, depth, opts);
    assert(s == sep + line + rest);
    assert(line.len() >= 2);
    if i == fields.len() - 1 {
        assert(rest =~= Seq::<char>::empty());
        assert(s[s.len() - 1] == line[line.len() - 1]);
        assert(line[line.len() - 1] != '\n');
    } else {
        lemma_flat_lines_last(fields, i + 1, depth, opts);
        assert(s[s.len() - 1] == rest[rest.len() - 1]);
    }
}

/// One line per leaf, at the whole-output level: a tree consisting solely
/// of an object with primitive leaves encodes, after trailing-newline
/// trimming, as exactly its fields' flat lines joined by single newlines.
pub proof fn lemma_flat_object_output(v: Value, opts: ToonOptions)
    requires
        v is Object,
        forall|t: int|
            0 <= t < v->Object_0@.len() ==> is_primitive(#[trigger] v->Object_0@[t].1),
        forall|t: int| 0 <= t < v->Object_0@.len() ==> scalar_wf(#[trigger] v->Object_0@[t].1),
    ensures
        encode_spec(v, opts) == flat_lines_from(v->Object_0@, 0, 0, opts),
        count_char(encode_spec(v, opts), '\n') == if v->Object_0@.len() == 0 {
            0int
        } else {
            v->Object_0@.len() - 1
        },
{
    let fields = v->Object_0@;
    lemma_flat_object_lines(fields, 0, 0, opts);
    let s = enc_obj_from(fields, 0, 0, opts);
    if fields.len() == 0 {
        assert(s =~= Seq::<char>::empty());
        assert(drop_trailing(s, '\n') == s);
    } else {
        lemma_flat_lines_last(fields, 0, 0, opts);
        assert(drop_trailing(s, '\n') == s);
    }
}

proof fn lemma_join_keys_no_nl(keys: Seq<Seq<char>>, i: int, delimiter: Delimiter)
    ensures
        no_char(join_keys_from(keys, i, delim_char(delimiter)), '\n'),
    decreases keys.len() - i,
{
    let d = delim_char(delimiter);
    if 0 <= i < keys.len() {
        lemma_join_keys_no_nl(keys, i + 1, delimiter);
        lemma_key_no_nl(keys[i], d);
        let sep: Seq<char> = if i > 0 {
            seq![d]
        } else {
            Seq::empty()
        };
        lemma_no_char_app(sep, key_seq(keys[i], d), '\n');
        lemma_no_char_app(sep + key_seq(keys[i], d), join_keys_from(keys, i + 1, d), '\n');
    }
}

/// A single header line: a non-empty all-primitive array encodes inline as
/// `<key>[n<sym>]: v1<d>...vn` with no newline anywhere — no row expansion.
pub proof fn lemma_inline_array_single_line(
    key: Seq<char>,
    elems: Seq<Value>,
    depth: nat,
    opts: ToonOptions,
)
    requires
        elems.len() >= 1,
        all_primitive(elems),
        forall|t: int| 0 <= t < elems.len() ==> scalar_wf(#[trigger] elems[t]),
        no_char(key, '\n'),
    ensures
        enc_array(key, elems, depth, opts) == header_seq(
            indent_seq(depth, opts.indent as nat),
            key,
            elems.len(),
            header_sym(opts.delimiter),
        ) + seq![':', ' '] + join_scalars_from(elems, 0, delim_char(opts.delimiter)),
        no_char(enc_array(key, elems, depth, opts), '\n'),
        count_char(enc_array(key, elems, depth, opts), '\n') == 0,
{
    let ind = indent_seq(depth, opts.indent as nat);
    let head = header_seq(ind, key, elems.len(), header_sym(opts.delimiter));
    lemma_indent_no_nl(depth, opts.indent as nat);
    lemma_header_no_nl(ind, key, elems.len(), opts.delimiter);
    lemma_join_scalars_no_nl(elems, 0, opts.delimiter);
    lemma_no_char_app(head, seq![':', ' '], '\n');
    lemma_no_char_app(
        head + seq![':', ' '],
        join_scalars_from(elems, 0, delim_char(opts.delimiter)),
        '\n',
    );
    lemma_no_char_count(enc_array(key, elems, depth, opts), '\n');
}

proof fn lemma_lookup_in(fields: Seq<(String, Value)>, k: Seq<char>, i: int)
    requires
        lookup_from(fields, k, i) is Some,
    ensures
        exists|m: int|
            0 <= m < fields.len() && lookup_from(fields, k, i) == Some(#[trigger] fields[m].1),
    decreases fields.len() - i,
{
    if 0 <= i < fields.len() {
        if fields[i].0@ == k {
        } else {
            lemma_lookup_in(fields, k, i + 1);
        }
    }
}

proof fn lemma_lookup_found(fields: Seq<(String, Value)>, k: Seq<char>, i: int, w: int)
    requires
        i <= w < fields.len(),
        0 <= i,
        fields[w].0@ == k,
    ensures
        lookup_from(fields, k, i) is Some,
    decreases fields.len() - i,
{
    if fields[i].0@ == k {
    } else {
        if i == w {
        } else {
            lemma_lookup_found(fields, k, i + 1, w);
        }
    }
}

proof fn lemma_row_cells_no_nl(
    f: Seq<(String, Value)>,
    keys: Seq<Seq<char>>,
    i: int,
    delimiter: Delimiter,
)
    requires
        forall|j: int| 0 <= j < f.len() ==> scalar_wf(#[trigger] f[j].1),
        forall|j: int|
            0 <= j < keys.len() ==> {
                let l = lookup(f, #[trigger] keys[j]);
                l is Some ==> is_primitive(l->0)
            },
    ensures
        no_char(row_cells_from(f, keys, i, delim_char(delimiter)), '\n'),
    decreases keys.len() - i,
{
    let d = delim_char(delimiter);
    if 0 <= i < keys.len() {
        lemma_row_cells_no_nl(f, keys, i + 1, delimiter);
        let cell = get_or_null(f, keys[i]);
        assert(is_primitive(cell) && scalar_wf(cell)) by {
            match lookup(f, keys[i]) {
                Some(_) => {
                    lemma_lookup_in(f, keys[i], 0);
                },
                None => {},
            }
        }
        lemma_scalar_no_nl(cell, d);
        let sep: Seq<char> = if i > 0 {
            seq![d]
        } else {
            Seq::empty()
        };
        lemma_no_char_app(sep, scalar_seq(cell, d), '\n');
        lemma_no_char_app(sep + scalar_seq(cell, d), row_cells_from(f, keys, i + 1, d), '\n');
    }
}

proof fn lemma_tab_rows_count(
    elems: Seq<Value>,
    keys: Seq<Seq<char>>,
    i: int,
    depth: nat,
    opts: ToonOptions,
)
    requires
        0 <= i <= elems.len(),
        detect_tabular_spec(elems) == Some(keys),
        forall|r: int| 0 <= r < elems.len() ==> fields_wf(#[trigger] elems[r]),
    ensures
        count_char(tab_rows_from(elems, keys, i, depth, opts), '\n') == elems.len() - i,
    decreases elems.len() - i,
{
    let d = delim_char(opts.delimiter);
    if i < elems.len() {
        lemma_tab_rows_count(elems, keys, i + 1, depth, opts);
        let f0 = elems[0]->Object_0@;
        assert(elems[i] is Object) by {
            if i > 0 {
                assert(row_ok(elems[i], first_keys(f0)));
            }
        }
        let f = elems[i]->Object_0@;
        assert(forall|j: int|
            0 <= j < keys.len() ==> {
                let l = lookup(f, #[trigger] keys[j]);
                l is Some ==> is_primitive(l->0)
            }) by {
            if i == 0 {
                assert forall|j: int| 0 <= j < keys.len() implies {
                    let l = lookup(f, #[trigger] keys[j]);
                    l is Some ==> is_primitive(l->0)
                } by {
                    match lookup(f, keys[j]) {
                        Some(_) => {
                            lemma_lookup_in(f, keys[j], 0);
                        },
                        None => {},
                    }
                }
            } else {
                assert(row_ok(elems[i], first_keys(f0)));
            }
        }
        lemma_row_cells_no_nl(f, keys, 0, opts.delimiter);
        let ci = indent_seq((depth + 1) as nat, opts.indent as nat);
        let row = seq!['\n'] + ci + row_cells_from(f, keys, 0, d);
        let rest = tab_rows_from(elems, keys, i + 1, depth, opts);
        lemma_indent_no_nl((depth + 1) as nat, opts.indent as nat);
        lemma_count_app(seq!['\n'], ci, '\n');
        lemma_count_app(seq!['\n'] + ci, row_cells_from(f, keys, 0, d), '\n');
        lemma_count_app(row, rest, '\n');
        lemma_no_char_count(ci, '\n');
        lemma_no_char_count(row_cells_from(f, keys, 0, d), '\n');
        lemma_count_single('\n');
    }
}

/// Tabular body count: an array detected as tabular encodes as a single
/// header line followed by exactly one body line per element.
pub proof fn lemma_tabular_row_count(key: Seq<char>, elems: Seq<Value>, depth: nat, opts: ToonOptions)
    requires
        detect_tabular_spec(elems) is Some,
        no_char(key, '\n'),
        forall|r: int| 0 <= r < elems.len() ==> fields_wf(#[trigger] elems[r]),
    ensures
        count_char(enc_array(key, elems, depth, opts), '\n') == elems.len(),
{
    let d = delim_char(opts.delimiter);
    let keys = detect_tabular_spec(elems)->0;
    let ind = indent_seq(depth, opts.indent as nat);
    let head = header_seq(ind, key, elems.len(), header_sym(opts.delimiter));
    assert(!is_primitive(elems[0]));
    assert(!all_primitive(elems));
    lemma_indent_no_nl(depth, opts.indent as nat);
    lemma_header_no_nl(ind, key, elems.len(), opts.delimiter);
    lemma_join_keys_no_nl(keys, 0, opts.delimiter);
    let pre = head + seq!['{'] + join_keys_from(keys, 0, d) + seq!['}', ':'];
    lemma_no_char_app(head, seq!['{'], '\n');
    lemma_no_char_app(head + seq!['{'], join_keys_from(keys, 0, d), '\n');
    lemma_no_char_app(head + seq!['{'] + join_keys_from(keys, 0, d), seq!['}', ':'], '\n');
    lemma_no_char_count(pre, '\n');
    lemma_tab_rows_count(elems, keys, 0, depth, opts);
    lemma_count_app(pre, tab_rows_from(elems, keys, 0, depth, opts), '\n');
}

} // verus!
