//! The encoder: a recursive tree-to-text transducer, given here twice — as a
//! specification-level model over `Seq<char>`, and as executable code proved
//! to produce exactly the model's text.

use vstd::prelude::*;
use crate::json::{json_seq, push_json};
use crate::number::{drop_trailing, num_seq, pop_trailing, push_number, udec};
use crate::options::{delim_char, header_sym, Delimiter, KeyFolding, ToonOptions};
use crate::text::{
    append_chars, bool_chars, chars_to_string, is_valid_identifier, is_valid_identifier_spec,
    key_seq, needs_quoting, needs_quoting_spec, null_chars, push_bool, push_escaped,
    push_key_chars, push_null, push_str_chars, str_eq, string_scalar_seq,
};
use crate::value::{
    all_primitive, get_or_null, is_primitive, lemma_fields_value_decreases,
    lemma_object_field_value_decreases, lemma_object_fields_decreases, lookup, lookup_from,
    value_is_primitive, Value,
};

verus! {

/// The rendering of a scalar: `null`, a boolean literal, a number, or a
/// string quoted when the quoting rule requires it. An array or object,
/// which reaches this rule only through the nested-array fallback of the
/// expanded list form, renders as compact JSON.
pub open spec fn scalar_seq(v: Value, delim: char) -> Seq<char> {
    match v {
        Value::Null => null_chars(),
        Value::Bool(b) => bool_chars(b),
        Value::Number(n) => num_seq(n),
        Value::String(s) => string_scalar_seq(s@, delim),
        _ => json_seq(v),
    }
}

/// The left margin at a nesting depth: `depth * width` spaces.
pub open spec fn indent_seq(depth: nat, width: nat) -> Seq<char> {
    Seq::new(depth * width, |i: int| ' ')
}

/// An array header: margin, formatted key, then `[n<sym>]`.
pub open spec fn header_seq(ind: Seq<char>, key: Seq<char>, n: nat, dsym: Seq<char>) -> Seq<char> {
    ind + key + seq!['['] + udec(n) + dsym + seq![']']
}

/// The dotted suffix gathered by key folding from `cur` with `hops` folding
/// hops left, together with the innermost unfolded value: descend while the
/// value is a single-entry object whose key is a bare identifier that needs
/// no quoting.
pub open spec fn fold_suffix(cur: Value, hops: int, delim: char) -> (Seq<char>, Value)
    decreases hops,
{
    if hops > 0 && cur is Object && cur->Object_0@.len() == 1 && is_valid_identifier_spec(
        cur->Object_0@[0].0@,
    ) && !needs_quoting_spec(cur->Object_0@[0].0@, delim) {
        let r = fold_suffix(cur->Object_0@[0].1, hops - 1, delim);
        (seq!['.'] + cur->Object_0@[0].0@ + r.0, r.1)
    } else {
        (Seq::empty(), cur)
    }
}

/// The value that folding stops at lies at or below the starting value in
/// the termination order.
pub proof fn lemma_fold_suffix_decreases(cur: Value, hops: int, delim: char)
    ensures
        fold_suffix(cur, hops, delim).1 == cur || decreases_to!(
            cur => fold_suffix(cur, hops, delim).1),
    decreases hops,
{
    if hops > 0 && cur is Object && cur->Object_0@.len() == 1 && is_valid_identifier_spec(
        cur->Object_0@[0].0@,
    ) && !needs_quoting_spec(cur->Object_0@[0].0@, delim) {
        let child = cur->Object_0@[0].1;
        lemma_object_field_value_decreases(cur, 0);
        lemma_fold_suffix_decreases(child, hops - 1, delim);
    }
}

/// The key sequence of an object's fields, in field order.
pub open spec fn first_keys(fields: Seq<(String, Value)>) -> Seq<Seq<char>> {
    Seq::new(fields.len(), |i: int| fields[i].0@)
}

/// A row qualifies for the tabular form under the header keys: it is an
/// object with the same number of entries, and looking up each header key
/// in it finds a primitive value.
pub open spec fn row_ok(v: Value, keys: Seq<Seq<char>>) -> bool {
    &&& v is Object
    &&& v->Object_0@.len() == keys.len()
    &&& forall|j: int|
        0 <= j < keys.len() ==> {
            let l = lookup(v->Object_0@, #[trigger] keys[j]);
            l is Some && is_primitive(l->0)
        }
}

/// Tabular-shape detection: the first element must be a non-empty object
/// with all-primitive values, and every later element must qualify as a row
/// under the first element's keys; the result is that key sequence.
pub open spec fn detect_tabular_spec(elems: Seq<Value>) -> Option<Seq<Seq<char>>> {
    if elems.len() > 0 && elems[0] is Object {
        let f0 = elems[0]->Object_0@;
        if f0.len() > 0 && (forall|j: int| 0 <= j < f0.len() ==> is_primitive(#[trigger] f0[j].1))
            && (forall|r: int| 1 <= r < elems.len() ==> row_ok(#[trigger] elems[r], first_keys(f0))) {
            Some(first_keys(f0))
        } else {
            None
        }
    } else {
        None
    }
}

/// The delimiter-joined scalar renderings of the elements from index `i` on.
pub open spec fn join_scalars_from(elems: Seq<Value>, i: int, delim: char) -> Seq<char>
    decreases elems.len() - i,
{
    if 0 <= i < elems.len() {
        (if i > 0 {
            seq![delim]
        } else {
            Seq::empty()
        }) + scalar_seq(elems[i], delim) + join_scalars_from(elems, i + 1, delim)
    } else {
        Seq::empty()
    }
}

/// The delimiter-joined formatted keys from index `i` on.
pub open spec fn join_keys_from(keys: Seq<Seq<char>>, i: int, delim: char) -> Seq<char>
    decreases keys.len() - i,
{
    if 0 <= i < keys.len() {
        (if i > 0 {
            seq![delim]
        } else {
            Seq::empty()
        }) + key_seq(keys[i], delim) + join_keys_from(keys, i + 1, delim)
    } else {
        Seq::empty()
    }
}

/// One tabular data row: the row's values looked up in header-key order,
/// scalar-rendered and delimiter-joined; a missing key renders as `null`.
pub open spec fn row_cells_from(
    fields: Seq<(String, Value)>,
    keys: Seq<Seq<char>>,
    i: int,
    delim: char,
) -> Seq<char>
    decreases keys.len() - i,
{
    if 0 <= i < keys.len() {
        (if i > 0 {
            seq![delim]
        } else {
            Seq::empty()
        }) + scalar_seq(get_or_null(fields, keys[i]), delim) + row_cells_from(
            fields,
            keys,
            i + 1,
            delim,
        )
    } else {
        Seq::empty()
    }
}

/// The tabular body lines for the elements from index `i` on, each on its
/// own line at one deeper indentation.
pub open spec fn tab_rows_from(
    elems: Seq<Value>,
    keys: Seq<Seq<char>>,
    i: int,
    depth: nat,
    opts: ToonOptions,
) -> Seq<char>
    decreases elems.len() - i,
{
    if 0 <= i < elems.len() {
        (match elems[i] {
            Value::Object(f) => seq!['\n'] + indent_seq((depth + 1) as nat, opts.indent as nat)
                + row_cells_from(f@, keys, 0, delim_char(opts.delimiter)),
            _ => Seq::empty(),
        }) + tab_rows_from(elems, keys, i + 1, depth, opts)
    } else {
        Seq::empty()
    }
}

/// The index of the first non-space character at or after `i`.
pub open spec fn skip_spaces(s: Seq<char>, i: int) -> int
    decreases s.len() - i,
{
    if 0 <= i < s.len() && s[i] == ' ' {
        skip_spaces(s, i + 1)
    } else {
        i
    }
}

/// The scalar-fallback lines of a nested array's elements from index `i`
/// on: each element on its own `- ` line, scalar-rendered without further
/// recursion into composites.
pub open spec fn inner_items_from(inner: Seq<Value>, i: int, depth: nat, opts: ToonOptions) -> Seq<
    char,
>
    decreases inner.len() - i,
{
    if 0 <= i < inner.len() {
        seq!['\n'] + indent_seq((depth + 2) as nat, opts.indent as nat) + seq!['-', ' ']
            + scalar_seq(inner[i], delim_char(opts.delimiter)) + inner_items_from(
            inner,
            i + 1,
            depth,
            opts,
        )
    } else {
        Seq::empty()
    }
}

/// The encoding of the object fields from index `i` on, one field per
/// emission, separated by newlines, with key folding applied when enabled.
pub open spec fn enc_obj_from(
    fields: Seq<(String, Value)>,
    i: int,
    depth: nat,
    opts: ToonOptions,
) -> Seq<char>
    decreases fields, fields.len() - i, 2nat,
{
    if 0 <= i < fields.len() {
        proof {
            lemma_fields_value_decreases(fields, i);
        }
        (if i > 0 {
            seq!['\n']
        } else {
            Seq::empty()
        }) + field_line(fields[i].0, fields[i].1, depth, opts) + enc_obj_from(
            fields,
            i + 1,
            depth,
            opts,
        )
    } else {
        Seq::empty()
    }
}

/// One field emission: when folding is enabled and the key is a bare
/// identifier, a chain of single-key objects collapses into one dotted key
/// whose value is the innermost unfolded value; otherwise the field is
/// emitted as it stands.
pub open spec fn field_line(k: String, v: Value, depth: nat, opts: ToonOptions) -> Seq<char>
    decreases v, 0nat, 1nat,
{
    let d = delim_char(opts.delimiter);
    if opts.key_folding is Safe && is_valid_identifier_spec(k@) {
        proof {
            lemma_fold_suffix_decreases(v, opts.flatten_depth as int, d);
        }
        let sufcur = fold_suffix(v, opts.flatten_depth as int, d);
        if sufcur.0.len() > 0 {
            enc_field(k@ + sufcur.0, sufcur.1, depth, opts)
        } else {
            enc_field(k@, v, depth, opts)
        }
    } else {
        enc_field(k@, v, depth, opts)
    }
}

/// The encoding of one key/value field at a depth: a non-empty object opens
/// a `key:` line and recurses one level deeper; an empty object is a bare
/// `key:`; an array delegates to the array form; a scalar is `key: value`.
pub open spec fn enc_field(key: Seq<char>, v: Value, depth: nat, opts: ToonOptions) -> Seq<char>
    decreases v, 0nat, 0nat,
{
    let d = delim_char(opts.delimiter);
    let fkey = key_seq(key, d);
    let ind = indent_seq(depth, opts.indent as nat);
    match v {
        Value::Object(f) => {
            proof {
                lemma_object_fields_decreases(v);
            }
            if f@.len() > 0 {
                ind + fkey + seq![':', '\n'] + enc_obj_from(f@, 0, (depth + 1) as nat, opts)
            } else {
                ind + fkey + seq![':']
            }
        },
        Value::Array(a) => {
            proof {
                assert(decreases_to!(v => a));
                assert(decreases_to!(a => a@));
            }
            enc_array(fkey, a@, depth, opts)
        },
        _ => ind + fkey + seq![':', ' '] + scalar_seq(v, d),
    }
}

/// The encoding of an array under an already-formatted key: empty, inline
/// primitive list, tabular, or expanded list, tried in that order.
pub open spec fn enc_array(key: Seq<char>, elems: Seq<Value>, depth: nat, opts: ToonOptions) -> Seq<
    char,
>
    decreases elems, elems.len() + 1, 0nat,
{
    let d = delim_char(opts.delimiter);
    let sym = header_sym(opts.delimiter);
    let ind = indent_seq(depth, opts.indent as nat);
    let head = header_seq(ind, key, elems.len(), sym);
    if elems.len() == 0 {
        head + seq![':']
    } else if all_primitive(elems) {
        head + seq![':', ' '] + join_scalars_from(elems, 0, d)
    } else if detect_tabular_spec(elems) is Some {
        let keys = detect_tabular_spec(elems)->0;
        head + seq!['{'] + join_keys_from(keys, 0, d) + seq!['}', ':'] + tab_rows_from(
            elems,
            keys,
            0,
            depth,
            opts,
        )
    } else {
        head + seq![':'] + items_from(elems, 0, depth, opts)
    }
}

/// The expanded-list lines for the elements from index `i` on.
pub open spec fn items_from(elems: Seq<Value>, i: int, depth: nat, opts: ToonOptions) -> Seq<char>
    decreases elems, elems.len() - i, 1nat,
{
    if 0 <= i < elems.len() {
        proof {
            assert(decreases_to!(elems => elems[i]));
        }
        seq!['\n'] + item_seq(elems[i], depth, opts) + items_from(elems, i + 1, depth, opts)
    } else {
        Seq::empty()
    }
}

/// One element of the expanded list form, introduced by a `- ` marker: a
/// non-empty object is encoded two levels deeper and its first line's
/// leading spaces give way to the marker; an empty object is a lone `-`; a
/// nested array is inlined when all-primitive and otherwise lists its
/// elements scalar-rendered; a scalar follows the marker directly.
pub open spec fn item_seq(v: Value, depth: nat, opts: ToonOptions) -> Seq<char>
    decreases v, 0nat, 0nat,
{
    let d = delim_char(opts.delimiter);
    let sym = header_sym(opts.delimiter);
    let ci = indent_seq((depth + 1) as nat, opts.indent as nat);
    match v {
        Value::Object(f) => {
            proof {
                lemma_object_fields_decreases(v);
            }
            if f@.len() > 0 {
                let sub = enc_obj_from(f@, 0, (depth + 2) as nat, opts);
                ci + seq!['-', ' '] + sub.skip(skip_spaces(sub, 0))
            } else {
                ci + seq!['-']
            }
        },
        Value::Array(inner) => if all_primitive(inner@) {
            ci + seq!['-', ' '] + header_seq(Seq::empty(), Seq::empty(), inner@.len(), sym) + seq![
                ':',
                ' ',
            ] + join_scalars_from(inner@, 0, d)
        } else {
            ci + seq!['-', ' '] + header_seq(Seq::empty(), Seq::empty(), inner@.len(), sym)
                + seq![':'] + inner_items_from(inner@, 0, depth, opts)
        },
        _ => ci + seq!['-', ' '] + scalar_seq(v, d),
    }
}

/// The whole encoding before trailing-newline trimming: an object at depth
/// zero, an array under an empty key, or a bare scalar at the root.
pub open spec fn enc_root(v: Value, opts: ToonOptions) -> Seq<char> {
    match v {
        Value::Object(f) => enc_obj_from(f@, 0, 0, opts),
        Value::Array(a) => enc_array(Seq::empty(), a@, 0, opts),
        _ => scalar_seq(v, delim_char(opts.delimiter)),
    }
}

/// The complete output: the root encoding with every trailing newline
/// removed.
pub open spec fn encode_spec(v: Value, opts: ToonOptions) -> Seq<char> {
    drop_trailing(enc_root(v, opts), '\n')
}

/// Append the rendering of a scalar (or the JSON fallback of a composite).
fn push_scalar(buf: &mut Vec<char>, v: &Value, delimiter: Delimiter)
    ensures
        final(buf)@ == old(buf)@ + scalar_seq(*v, delim_char(delimiter)),
{
    match v {
        Value::Null => push_null(buf),
        Value::Bool(b) => push_bool(buf, *b),
        Value::Number(n) => push_number(buf, n),
        Value::String(s) => {
            if needs_quoting(s.as_str(), delimiter) {
                buf.push('"');
                push_escaped(buf, s.as_str());
                buf.push('"');
                proof {
                    assert(buf@ =~= old(buf)@ + scalar_seq(*v, delim_char(delimiter)));
                }
            } else {
                push_str_chars(buf, s.as_str());
            }
        },
        _ => push_json(buf, v),
    }
}

/// The margin one level deeper: the given margin plus `width` spaces.
fn extend_indent(indent: &Vec<char>, width: usize, Ghost(depth): Ghost<nat>) -> (r: Vec<char>)
    requires
        indent@ == indent_seq(depth, width as nat),
    ensures
        r@ == indent_seq((depth + 1) as nat, width as nat),
{
    let mut r: Vec<char> = Vec::new();
    append_chars(&mut r, indent);
    let mut j: usize = 0;
    while j < width
        invariant
            0 <= j <= width,
            r@ == indent@ + Seq::new(j as nat, |i: int| ' '),
        decreases width - j,
    {
        r.push(' ');
        proof {
            assert(r@ =~= indent@ + Seq::new((j + 1) as nat, |i: int| ' '));
        }
        j = j + 1;
    }
    proof {
        assert((depth + 1) * (width as nat) == depth * (width as nat) + (width as nat))
            by (nonlinear_arith);
        assert(r@ =~= indent_seq((depth + 1) as nat, width as nat));
    }
    r
}

/// Append an array header: margin, key, `[n<sym>]`.
fn push_header(
    buf: &mut Vec<char>,
    indent: &Vec<char>,
    key: &Vec<char>,
    n: usize,
    delimiter: Delimiter,
)
    ensures
        final(buf)@ == old(buf)@ + header_seq(indent@, key@, n as nat, header_sym(delimiter)),
{
    append_chars(buf, indent);
    append_chars(buf, key);
    buf.push('[');
    crate::number::push_usize(buf, n);
    push_str_chars(buf, delimiter.header_symbol());
    buf.push(']');
    proof {
        assert(buf@ =~= old(buf)@ + header_seq(indent@, key@, n as nat, header_sym(delimiter)));
    }
}

/// Whether every element of the vector is a primitive scalar.
fn all_primitive_vec(elems: &Vec<Value>) -> (b: bool)
    ensures
        b == all_primitive(elems@),
{
    let n = elems.len();
    let mut allp = true;
    let mut j: usize = 0;
    while j < n
        invariant
            0 <= j <= n,
            n == elems@.len(),
            allp == (forall|t: int| 0 <= t < j ==> is_primitive(#[trigger] elems@[t])),
        decreases n - j,
    {
        if !value_is_primitive(&elems[j]) {
            allp = false;
        }
        j = j + 1;
    }
    allp
}

/// The first value bound to `key` in the field list, if any.
fn lookup_field<'a>(fields: &'a Vec<(String, Value)>, key: &str) -> (r: Option<&'a Value>)
    ensures
        match r {
            Some(v) => lookup(fields@, key@) == Some(*v),
            None => lookup(fields@, key@) is None,
        },
{
    let n = fields.len();
    let mut i: usize = 0;
    while i < n
        invariant
            0 <= i <= n,
            n == fields@.len(),
            lookup_from(fields@, key@, 0) == lookup_from(fields@, key@, i as int),
        decreases n - i,
    {
        if str_eq(fields[i].0.as_str(), key) {
            return Some(&fields[i].1);
        }
        i = i + 1;
    }
    None
}

/// The key views of a vector of strings, in order.
pub open spec fn key_views(ks: Seq<String>) -> Seq<Seq<char>> {
    Seq::new(ks.len(), |i: int| ks[i]@)
}

/// Tabular-shape detection on a vector: the first element's keys when every
/// element qualifies, `None` otherwise.
fn detect_tabular(elems: &Vec<Value>) -> (r: Option<Vec<String>>)
    ensures
        match r {
            Some(ks) => detect_tabular_spec(elems@) == Some(key_views(ks@)),
            None => detect_tabular_spec(elems@) is None,
        },
{
    let n = elems.len();
    if n == 0 {
        return None;
    }
    match &elems[0] {
        Value::Object(f0) => {
            let m = f0.len();
            if m == 0 {
                return None;
            }
            let mut keys: Vec<String> = Vec::new();
            let mut j: usize = 0;
            while j < m
                invariant
                    0 <= j <= m,
                    m == f0@.len(),
                    elems@[0] == Value::Object(*f0),
                    keys@.len() == j,
                    forall|t: int| 0 <= t < j ==> (#[trigger] keys@[t])@ == f0@[t].0@,
                    forall|t: int| 0 <= t < j ==> is_primitive(#[trigger] f0@[t].1),
                decreases m - j,
            {
                if !value_is_primitive(&f0[j].1) {
                    return None;
                }
                keys.push(f0[j].0.clone());
                j = j + 1;
            }
            proof {
                assert(key_views(keys@) =~~= first_keys(f0@));
            }
            let mut r: usize = 1;
            while r < n
                invariant
                    1 <= r <= n,
                    n == elems@.len(),
                    m == f0@.len(),
                    m > 0,
                    elems@[0] == Value::Object(*f0),
                    keys@.len() == m,
                    key_views(keys@) == first_keys(f0@),
                    forall|t: int| 0 <= t < m ==> (#[trigger] keys@[t])@ == f0@[t].0@,
                    forall|t: int| 0 <= t < m ==> is_primitive(#[trigger] f0@[t].1),
                    forall|t: int| 1 <= t < r ==> row_ok(#[trigger] elems@[t], first_keys(f0@)),
                decreases n - r,
            {
                match &elems[r] {
                    Value::Object(fr) => {
                        if fr.len() != m {
                            return None;
                        }
                        let mut j2: usize = 0;
                        while j2 < m
                            invariant
                                0 <= j2 <= m,
                                m == f0@.len(),
                                m > 0,
                                keys@.len() == m,
                                0 < r < n == elems@.len(),
                                elems@[0] == Value::Object(*f0),
                                elems@[r as int] == Value::Object(*fr),
                                fr@.len() == m,
                                forall|t: int| 0 <= t < m ==> is_primitive(#[trigger] f0@[t].1),
                                forall|t: int| 0 <= t < m ==> (#[trigger] keys@[t])@ == f0@[t].0@,
                                forall|t: int|
                                    0 <= t < j2 ==> {
                                        let l = lookup(fr@, #[trigger] first_keys(f0@)[t]);
                                        l is Some && is_primitive(l->0)
                                    },
                            decreases m - j2,
                        {
                            match lookup_field(fr, keys[j2].as_str()) {
                                Some(cv) => {
                                    if !value_is_primitive(cv) {
                                        proof {
                                            assert(first_keys(f0@)[j2 as int] == keys@[j2 as int]@);
                                            assert(!row_ok(elems@[r as int], first_keys(f0@)));
                                        }
                                        return None;
                                    }
                                },
                                None => {
                                    proof {
                                        assert(first_keys(f0@)[j2 as int] == keys@[j2 as int]@);
                                        assert(!row_ok(elems@[r as int], first_keys(f0@)));
                                    }
                                    return None;
                                },
                            }
                            j2 = j2 + 1;
                        }
                        proof {
                            assert(row_ok(elems@[r as int], first_keys(f0@)));
                        }
                    },
                    _ => {
                        return None;
                    },
                }
                r = r + 1;
            }
            Some(keys)
        },
        _ => None,
    }
}

/// Walk a chain of single-key objects, appending `.key` for each folded
/// hop, and return the innermost unfolded value.
fn fold_walk<'a>(
    folded: &mut Vec<char>,
    cur: &'a Value,
    hops_left: usize,
    delimiter: Delimiter,
) -> (r: &'a Value)
    ensures
        final(folded)@ == old(folded)@ + fold_suffix(
            *cur,
            hops_left as int,
            delim_char(delimiter),
        ).0,
        *r == fold_suffix(*cur, hops_left as int, delim_char(delimiter)).1,
        *r == *cur || decreases_to!(*cur => *r),
    decreases hops_left,
{
    if hops_left > 0 {
        match cur {
            Value::Object(inner) => {
                if inner.len() == 1 {
                    let k = &inner[0].0;
                    if is_valid_identifier(k.as_str()) && !needs_quoting(k.as_str(), delimiter) {
                        folded.push('.');
                        push_str_chars(folded, k.as_str());
                        proof {
                            lemma_object_field_value_decreases(*cur, 0);
                        }
                        let r = fold_walk(folded, &inner[0].1, hops_left - 1, delimiter);
                        proof {
                            assert(folded@ =~= old(folded)@ + fold_suffix(
                                *cur,
                                hops_left as int,
                                delim_char(delimiter),
                            ).0);
                        }
                        return r;
                    }
                }
            },
            _ => {},
        }
    }
    cur
}

/// Encode one key/value field at the margin `indent`.
fn encode_field(
    buf: &mut Vec<char>,
    key: &str,
    v: &Value,
    Ghost(depth): Ghost<nat>,
    opts: &ToonOptions,
    indent: &Vec<char>,
)
    requires
        indent@ == indent_seq(depth, opts.indent as nat),
    ensures
        final(buf)@ == old(buf)@ + enc_field(key@, *v, depth, *opts),
    decreases *v,
{
    let mut fkey: Vec<char> = Vec::new();
    push_key_chars(&mut fkey, key, opts.delimiter);
    match v {
        Value::Object(f) => {
            if f.len() > 0 {
                append_chars(buf, indent);
                append_chars(buf, &fkey);
                buf.push(':');
                buf.push('\n');
                let ci = extend_indent(indent, opts.indent, Ghost(depth));
                proof {
                    lemma_object_fields_decreases(*v);
                }
                encode_object(buf, f, Ghost((depth + 1) as nat), opts, &ci);
                proof {
                    assert(buf@ =~= old(buf)@ + enc_field(key@, *v, depth, *opts));
                }
            } else {
                append_chars(buf, indent);
                append_chars(buf, &fkey);
                buf.push(':');
                proof {
                    assert(buf@ =~= old(buf)@ + enc_field(key@, *v, depth, *opts));
                }
            }
        },
        Value::Array(a) => {
            proof {
                assert(decreases_to!(*v => *a));
                assert(decreases_to!(*a => a@));
            }
            encode_array_field(buf, &fkey, a, Ghost(depth), opts, indent);
        },
        _ => {
            append_chars(buf, indent);
            append_chars(buf, &fkey);
            buf.push(':');
            buf.push(' ');
            push_scalar(buf, v, opts.delimiter);
            proof {
                assert(buf@ =~= old(buf)@ + enc_field(key@, *v, depth, *opts));
            }
        },
    }
}

/// Encode every field of an object, one per line, folding single-key
/// chains into dotted keys when the safe folding mode is on.
fn encode_object(
    buf: &mut Vec<char>,
    fields: &Vec<(String, Value)>,
    Ghost(depth): Ghost<nat>,
    opts: &ToonOptions,
    indent: &Vec<char>,
)
    requires
        indent@ == indent_seq(depth, opts.indent as nat),
    ensures
        final(buf)@ == old(buf)@ + enc_obj_from(fields@, 0, depth, *opts),
    decreases fields@,
{
    let ghost orig = buf@;
    let n = fields.len();
    let mut i: usize = 0;
    while i < n
        invariant
            0 <= i <= n,
            n == fields@.len(),
            indent@ == indent_seq(depth, opts.indent as nat),
            orig + enc_obj_from(fields@, 0, depth, *opts) == buf@ + enc_obj_from(
                fields@,
                i as int,
                depth,
                *opts,
            ),
        decreases n - i,
    {
        if i > 0 {
            buf.push('\n');
        }
        let ghost before_field = buf@;
        let key = &fields[i].0;
        let val = &fields[i].1;
        proof {
            lemma_fields_value_decreases(fields@, i as int);
        }
        let fold_on = match opts.key_folding {
            KeyFolding::Safe => true,
            KeyFolding::Off => false,
        };
        if fold_on && is_valid_identifier(key.as_str()) {
            let mut folded: Vec<char> = Vec::new();
            push_str_chars(&mut folded, key.as_str());
            let base = folded.len();
            let cur = fold_walk(&mut folded, val, opts.flatten_depth, opts.delimiter);
            proof {
                assert(decreases_to!(fields@ => *cur));
            }
            if folded.len() > base {
                let fstr = chars_to_string(folded);
                encode_field(buf, fstr.as_str(), cur, Ghost(depth), opts, indent);
            } else {
                encode_field(buf, key.as_str(), val, Ghost(depth), opts, indent);
            }
            proof {
                assert(buf@ == before_field + field_line(
                    fields@[i as int].0,
                    fields@[i as int].1,
                    depth,
                    *opts,
                ));
            }
        } else {
            encode_field(buf, key.as_str(), val, Ghost(depth), opts, indent);
            proof {
                assert(buf@ == before_field + field_line(
                    fields@[i as int].0,
                    fields@[i as int].1,
                    depth,
                    *opts,
                ));
            }
        }
        proof {
            assert(orig + enc_obj_from(fields@, 0, depth, *opts) =~= buf@ + enc_obj_from(
                fields@,
                (i + 1) as int,
                depth,
                *opts,
            ));
        }
        i = i + 1;
    }
}

/// Encode one element of the expanded list form after its `- ` marker line
/// is due, at the margin `ci` one level below the array's own depth.
fn encode_item(
    buf: &mut Vec<char>,
    v: &Value,
    Ghost(depth): Ghost<nat>,
    opts: &ToonOptions,
    ci: &Vec<char>,
)
    requires
        ci@ == indent_seq((depth + 1) as nat, opts.indent as nat),
    ensures
        final(buf)@ == old(buf)@ + item_seq(*v, depth, *opts),
    decreases *v,
{
    let ghost orig = buf@;
    match v {
        Value::Object(f) => {
            if f.len() > 0 {
                let ci2 = extend_indent(ci, opts.indent, Ghost((depth + 1) as nat));
                let mut sub: Vec<char> = Vec::new();
                proof {
                    lemma_object_fields_decreases(*v);
                }
                encode_object(&mut sub, f, Ghost((depth + 2) as nat), opts, &ci2);
                append_chars(buf, ci);
                buf.push('-');
                buf.push(' ');
                let ghost subs = sub@;
                let mut p: usize = 0;
                while p < sub.len() && sub[p] == ' '
                    invariant
                        0 <= p <= sub@.len(),
                        sub@ == subs,
                        skip_spaces(subs, 0) == skip_spaces(subs, p as int),
                    decreases sub@.len() - p,
                {
                    p = p + 1;
                }
                let ghost mid = buf@;
                let mut q: usize = p;
                while q < sub.len()
                    invariant
                        p <= q <= sub@.len(),
                        sub@ == subs,
                        buf@ == mid + subs.subrange(p as int, q as int),
                    decreases sub@.len() - q,
                {
                    buf.push(sub[q]);
                    proof {
                        assert(mid + subs.subrange(p as int, (q + 1) as int) =~= (mid
                            + subs.subrange(p as int, q as int)).push(subs[q as int]));
                    }
                    q = q + 1;
                }
                proof {
                    assert(skip_spaces(subs, 0) == p);
                    assert(subs.subrange(p as int, subs.len() as int) =~= subs.skip(p as int));
                    assert(buf@ =~= orig + item_seq(*v, depth, *opts));
                }
            } else {
                append_chars(buf, ci);
                buf.push('-');
                proof {
                    assert(buf@ =~= orig + item_seq(*v, depth, *opts));
                }
            }
        },
        Value::Array(inner) => {
            let ghost d = delim_char(opts.delimiter);
            append_chars(buf, ci);
            buf.push('-');
            buf.push(' ');
            let empty_ind: Vec<char> = Vec::new();
            let empty_key: Vec<char> = Vec::new();
            push_header(buf, &empty_ind, &empty_key, inner.len(), opts.delimiter);
            buf.push(':');
            let m = inner.len();
            if all_primitive_vec(inner) {
                buf.push(' ');
                let dc = opts.delimiter.char();
                let ghost mid = buf@;
                let mut t: usize = 0;
                while t < m
                    invariant
                        0 <= t <= m,
                        m == inner@.len(),
                        dc == d,
                        d == delim_char(opts.delimiter),
                        mid + join_scalars_from(inner@, 0, d) == buf@ + join_scalars_from(
                            inner@,
                            t as int,
                            d,
                        ),
                    decreases m - t,
                {
                    if t > 0 {
                        buf.push(dc);
                    }
                    push_scalar(buf, &inner[t], opts.delimiter);
                    proof {
                        assert(mid + join_scalars_from(inner@, 0, d) =~= buf@ + join_scalars_from(
                            inner@,
                            (t + 1) as int,
                            d,
                        ));
                    }
                    t = t + 1;
                }
                proof {
                    assert(buf@ =~= orig + item_seq(*v, depth, *opts));
                }
            } else {
                let ci2 = extend_indent(ci, opts.indent, Ghost((depth + 1) as nat));
                let ghost mid = buf@;
                let mut t: usize = 0;
                while t < m
                    invariant
                        0 <= t <= m,
                        m == inner@.len(),
                        d == delim_char(opts.delimiter),
                        ci2@ == indent_seq((depth + 2) as nat, opts.indent as nat),
                        mid + inner_items_from(inner@, 0, depth, *opts) == buf@ + inner_items_from(
                            inner@,
                            t as int,
                            depth,
                            *opts,
                        ),
                    decreases m - t,
                {
                    buf.push('\n');
                    append_chars(buf, &ci2);
                    buf.push('-');
                    buf.push(' ');
                    push_scalar(buf, &inner[t], opts.delimiter);
                    proof {
                        assert(mid + inner_items_from(inner@, 0, depth, *opts) =~= buf@
                            + inner_items_from(inner@, (t + 1) as int, depth, *opts));
                    }
                    t = t + 1;
                }
                proof {
                    assert(buf@ =~= orig + item_seq(*v, depth, *opts));
                }
            }
        },
        _ => {
            append_chars(buf, ci);
            buf.push('-');
            buf.push(' ');
            push_scalar(buf, v, opts.delimiter);
            proof {
                assert(buf@ =~= orig + item_seq(*v, depth, *opts));
            }
        },
    }
}

/// Encode an array under an already-formatted key: empty, inline primitive
/// list, tabular, or expanded list, tried in that order.
fn encode_array_field(
    buf: &mut Vec<char>,
    key: &Vec<char>,
    elems: &Vec<Value>,
    Ghost(depth): Ghost<nat>,
    opts: &ToonOptions,
    indent: &Vec<char>,
)
    requires
        indent@ == indent_seq(depth, opts.indent as nat),
    ensures
        final(buf)@ == old(buf)@ + enc_array(key@, elems@, depth, *opts),
    decreases elems@,
{
    let ghost orig = buf@;
    let ghost d = delim_char(opts.delimiter);
    let n = elems.len();
    push_header(buf, indent, key, n, opts.delimiter);
    if n == 0 {
        buf.push(':');
        proof {
            assert(buf@ =~= orig + enc_array(key@, elems@, depth, *opts));
        }
        return;
    }
    if all_primitive_vec(elems) {
        buf.push(':');
        buf.push(' ');
        let dc = opts.delimiter.char();
        let ghost mid = buf@;
        let mut t: usize = 0;
        while t < n
            invariant
                0 <= t <= n,
                n == elems@.len(),
                dc == d,
                d == delim_char(opts.delimiter),
                mid + join_scalars_from(elems@, 0, d) == buf@ + join_scalars_from(
                    elems@,
                    t as int,
                    d,
                ),
            decreases n - t,
        {
            if t > 0 {
                buf.push(dc);
            }
            push_scalar(buf, &elems[t], opts.delimiter);
            proof {
                assert(mid + join_scalars_from(elems@, 0, d) =~= buf@ + join_scalars_from(
                    elems@,
                    (t + 1) as int,
                    d,
                ));
            }
            t = t + 1;
        }
        proof {
            assert(buf@ =~= orig + enc_array(key@, elems@, depth, *opts));
        }
        return;
    }
    match detect_tabular(elems) {
        Some(keys) => {
            let ghost kv = key_views(keys@);
            buf.push('{');
            let dc = opts.delimiter.char();
            let nk = keys.len();
            let ghost mid = buf@;
            let mut t: usize = 0;
            while t < nk
                invariant
                    0 <= t <= nk,
                    nk == keys@.len(),
                    kv == key_views(keys@),
                    dc == d,
                    d == delim_char(opts.delimiter),
                    mid + join_keys_from(kv, 0, d) == buf@ + join_keys_from(kv, t as int, d),
                decreases nk - t,
            {
                if t > 0 {
                    buf.push(dc);
                }
                push_key_chars(buf, keys[t].as_str(), opts.delimiter);
                proof {
                    assert(kv[t as int] == keys@[t as int]@);
                    assert(mid + join_keys_from(kv, 0, d) =~= buf@ + join_keys_from(
                        kv,
                        (t + 1) as int,
                        d,
                    ));
                }
                t = t + 1;
            }
            buf.push('}');
            buf.push(':');
            let ci = extend_indent(indent, opts.indent, Ghost(depth));
            let ghost mid2 = buf@;
            let mut r: usize = 0;
            while r < n
                invariant
                    0 <= r <= n,
                    n == elems@.len(),
                    nk == keys@.len(),
                    kv == key_views(keys@),
                    dc == d,
                    d == delim_char(opts.delimiter),
                    ci@ == indent_seq((depth + 1) as nat, opts.indent as nat),
                    mid2 + tab_rows_from(elems@, kv, 0, depth, *opts) == buf@ + tab_rows_from(
                        elems@,
                        kv,
                        r as int,
                        depth,
                        *opts,
                    ),
                decreases n - r,
            {
                match &elems[r] {
                    Value::Object(f) => {
                        buf.push('\n');
                        append_chars(buf, &ci);
                        let ghost mid3 = buf@;
                        let mut t2: usize = 0;
                        while t2 < nk
                            invariant
                                0 <= t2 <= nk,
                                nk == keys@.len(),
                                kv == key_views(keys@),
                                dc == d,
                                d == delim_char(opts.delimiter),
                                mid3 + row_cells_from(f@, kv, 0, d) == buf@ + row_cells_from(
                                    f@,
                                    kv,
                                    t2 as int,
                                    d,
                                ),
                            decreases nk - t2,
                        {
                            if t2 > 0 {
                                buf.push(dc);
                            }
                            match lookup_field(f, keys[t2].as_str()) {
                                Some(cv) => {
                                    proof {
                                        assert(kv[t2 as int] == keys@[t2 as int]@);
                                        assert(get_or_null(f@, kv[t2 as int]) == *cv);
                                    }
                                    push_scalar(buf, cv, opts.delimiter);
                                },
                                None => {
                                    proof {
                                        assert(kv[t2 as int] == keys@[t2 as int]@);
                                        assert(get_or_null(f@, kv[t2 as int]) == Value::Null);
                                    }
                                    push_null(buf);
                                },
                            }
                            proof {
                                assert(mid3 + row_cells_from(f@, kv, 0, d) =~= buf@
                                    + row_cells_from(f@, kv, (t2 + 1) as int, d));
                            }
                            t2 = t2 + 1;
                        }
                        proof {
                            assert(mid2 + tab_rows_from(elems@, kv, 0, depth, *opts) =~= buf@
                                + tab_rows_from(elems@, kv, (r + 1) as int, depth, *opts));
                        }
                    },
                    _ => {
                        proof {
                            assert(mid2 + tab_rows_from(elems@, kv, 0, depth, *opts) =~= buf@
                                + tab_rows_from(elems@, kv, (r + 1) as int, depth, *opts));
                        }
                    },
                }
                r = r + 1;
            }
            proof {
                assert(buf@ =~= orig + enc_array(key@, elems@, depth, *opts));
            }
        },
        None => {
            buf.push(':');
            let ci = extend_indent(indent, opts.indent, Ghost(depth));
            let ghost mid = buf@;
            let mut r: usize = 0;
            while r < n
                invariant
                    0 <= r <= n,
                    n == elems@.len(),
                    ci@ == indent_seq((depth + 1) as nat, opts.indent as nat),
                    mid + items_from(elems@, 0, depth, *opts) == buf@ + items_from(
                        elems@,
                        r as int,
                        depth,
                        *opts,
                    ),
                decreases n - r,
            {
                buf.push('\n');
                proof {
                    assert(decreases_to!(elems@ => elems@[r as int]));
                }
                encode_item(buf, &elems[r], Ghost(depth), opts, &ci);
                proof {
                    assert(mid + items_from(elems@, 0, depth, *opts) =~= buf@ + items_from(
                        elems@,
                        (r + 1) as int,
                        depth,
                        *opts,
                    ));
                }
                r = r + 1;
            }
            proof {
                assert(buf@ =~= orig + enc_array(key@, elems@, depth, *opts));
            }
        },
    }
}

/// Encode a value as TOON: an object as a field list at depth zero, an
/// array as a bare `[n]:` header under an empty key, and a primitive scalar
/// directly, with every trailing newline trimmed from the result.
pub fn encode_toon(value: &Value, opts: &ToonOptions) -> (r: String)
    ensures
        r@ == encode_spec(*value, *opts),
{
    let mut buf: Vec<char> = Vec::new();
    let ind: Vec<char> = Vec::new();
    proof {
        assert(ind@ =~= indent_seq(0, opts.indent as nat));
    }
    match value {
        Value::Object(f) => {
            encode_object(&mut buf, f, Ghost(0nat), opts, &ind);
        },
        Value::Array(a) => {
            let key: Vec<char> = Vec::new();
            encode_array_field(&mut buf, &key, a, Ghost(0nat), opts, &ind);
            proof {
                assert(key@ =~= Seq::<char>::empty());
            }
        },
        _ => {
            push_scalar(&mut buf, value, opts.delimiter);
        },
    }
    proof {
        assert(buf@ == enc_root(*value, *opts));
    }
    pop_trailing(&mut buf, '\n');
    chars_to_string(buf)
}

} // verus!
