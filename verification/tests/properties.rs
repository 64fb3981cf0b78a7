use format_as_toon::text::{escape_string, format_key, is_valid_identifier, looks_like_number, needs_quoting};
use format_as_toon::{encode_toon, Delimiter, KeyFolding, Number, ToonOptions, Value};

fn obj(fields: Vec<(&str, Value)>) -> Value {
    Value::Object(fields.into_iter().map(|(k, v)| (k.to_string(), v)).collect())
}

fn s(text: &str) -> Value {
    Value::String(text.to_string())
}

fn n(i: i64) -> Value {
    Value::Number(Number::Int(i))
}

fn default_opts() -> ToonOptions {
    ToonOptions::default()
}

#[test]
fn flat_object_one_line_per_leaf() {
    let v = obj(vec![
        ("a", Value::Null),
        ("b", Value::Bool(false)),
        ("c", n(7)),
        ("d", s("hi")),
    ]);
    let out = encode_toon(&v, &default_opts());
    assert_eq!(out, "a: null\nb: false\nc: 7\nd: hi");
    assert_eq!(out.lines().count(), 4);
}

#[test]
fn flat_object_wide_indent_nested() {
    let v = obj(vec![("a", obj(vec![("b", n(1)), ("c", n(2))]))]);
    let opts = ToonOptions {
        indent: 4,
        ..default_opts()
    };
    let out = encode_toon(&v, &opts);
    assert_eq!(out, "a:\n    b: 1\n    c: 2");
}

#[test]
fn inline_array_single_line() {
    let v = obj(vec![("items", Value::Array(vec![s("a"), s("b")]))]);
    let opts = ToonOptions {
        delimiter: Delimiter::Tab,
        ..default_opts()
    };
    let out = encode_toon(&v, &opts);
    assert_eq!(out, "items[2\t]: a\tb");
    assert_eq!(out.lines().count(), 1);
}

#[test]
fn tabular_one_body_line_per_element() {
    let rows = Value::Array(vec![
        obj(vec![("a", Value::Null)]),
        obj(vec![("a", Value::Null)]),
        obj(vec![("a", n(3))]),
    ]);
    let out = encode_toon(&obj(vec![("r", rows)]), &default_opts());
    assert_eq!(out, "r[3]{a}:\n  null\n  null\n  3");
    assert_eq!(out.lines().count(), 4);
}

#[test]
fn tabular_at_root() {
    let rows = Value::Array(vec![obj(vec![("id", n(1))]), obj(vec![("id", n(2))])]);
    let out = encode_toon(&rows, &default_opts());
    assert_eq!(out, "[2]{id}:\n  1\n  2");
}

#[test]
fn mismatched_rows_fall_back_to_expanded() {
    let rows = Value::Array(vec![obj(vec![("a", n(1))]), obj(vec![("b", n(2))])]);
    let out = encode_toon(&obj(vec![("r", rows)]), &default_opts());
    assert_eq!(out, "r[2]:\n  - a: 1\n  - b: 2");
}

#[test]
fn expanded_list_forms() {
    let arr = Value::Array(vec![
        n(1),
        obj(vec![("x", n(1)), ("y", n(2))]),
        obj(vec![]),
        Value::Array(vec![n(1), n(2)]),
    ]);
    let out = encode_toon(&obj(vec![("a", arr)]), &default_opts());
    assert_eq!(out, "a[4]:\n  - 1\n  - x: 1\n    y: 2\n  -\n  - [2]: 1,2");
}

#[test]
fn nested_array_composite_scalar_fallback() {
    let inner = Value::Array(vec![Value::Array(vec![n(1)]), s("s")]);
    let arr = Value::Array(vec![obj(vec![("x", n(1))]), inner]);
    let out = encode_toon(&obj(vec![("a", arr)]), &default_opts());
    assert_eq!(out, "a[2]:\n  - x: 1\n  - [2]:\n    - [1]\n    - s");
}

#[test]
fn folding_stops_before_reserved_word_key() {
    let v = obj(vec![("a", obj(vec![("b", obj(vec![("true", obj(vec![("x", n(1))]))]))]))]);
    let opts = ToonOptions {
        key_folding: KeyFolding::Safe,
        ..default_opts()
    };
    let out = encode_toon(&v, &opts);
    assert_eq!(out, "a.b:\n  true.x: 1");
}

#[test]
fn folding_stops_at_invalid_identifier() {
    let v = obj(vec![("a", obj(vec![("b c", obj(vec![("x", n(1))]))]))]);
    let opts = ToonOptions {
        key_folding: KeyFolding::Safe,
        ..default_opts()
    };
    let out = encode_toon(&v, &opts);
    assert_eq!(out, "a:\n  b c:\n    x: 1");
}

#[test]
fn flatten_depth_zero_disables_folding() {
    let v = obj(vec![("a", obj(vec![("b", n(1))]))]);
    let opts = ToonOptions {
        key_folding: KeyFolding::Safe,
        flatten_depth: 0,
        ..default_opts()
    };
    let out = encode_toon(&v, &opts);
    assert_eq!(out, "a:\n  b: 1");
}

#[test]
fn composite_row_values_defeat_tabular() {
    let rows = Value::Array(vec![
        obj(vec![("a", obj(vec![]))]),
        obj(vec![("a", obj(vec![]))]),
    ]);
    let out = encode_toon(&obj(vec![("r", rows)]), &default_opts());
    assert_eq!(out, "r[2]:\n  - a:\n  - a:");
}

#[test]
fn root_scalars() {
    let opts = default_opts();
    assert_eq!(encode_toon(&Value::Null, &opts), "null");
    assert_eq!(encode_toon(&Value::Bool(true), &opts), "true");
    assert_eq!(encode_toon(&n(42), &opts), "42");
    assert_eq!(encode_toon(&s("hi"), &opts), "hi");
    assert_eq!(encode_toon(&s("true"), &opts), "\"true\"");
}

#[test]
fn empty_root_object_is_empty() {
    assert_eq!(encode_toon(&obj(vec![]), &default_opts()), "");
}

#[test]
fn multiline_string_is_escaped() {
    let v = obj(vec![("x", s("a\nb\t\"c\"\\"))]);
    let out = encode_toon(&v, &default_opts());
    assert_eq!(out, "x: \"a\\nb\\t\\\"c\\\"\\\\\"");
    assert_eq!(out.lines().count(), 1);
}

#[test]
fn extreme_integers() {
    let v = obj(vec![("lo", n(i64::MIN)), ("hi", n(i64::MAX))]);
    let out = encode_toon(&v, &default_opts());
    assert_eq!(out, "lo: -9223372036854775808\nhi: 9223372036854775807");
}

#[test]
fn non_finite_renders_null() {
    let v = obj(vec![("x", Value::Number(Number::NonFinite))]);
    assert_eq!(encode_toon(&v, &default_opts()), "x: null");
}

#[test]
fn exponential_plain_falls_back_to_precise() {
    let d = Number::Dec {
        plain: "1e-7".to_string(),
        precise: "0.00000010000000000000".to_string(),
    };
    let v = obj(vec![("x", Value::Number(d))]);
    assert_eq!(encode_toon(&v, &default_opts()), "x: 0.0000001");
}

#[test]
fn plain_decimal_used_verbatim() {
    let d = Number::Dec {
        plain: "3.14".to_string(),
        precise: "3.14000000000000012434".to_string(),
    };
    let v = obj(vec![("x", Value::Number(d))]);
    assert_eq!(encode_toon(&v, &default_opts()), "x: 3.14");
}

#[test]
fn encoding_is_deterministic() {
    let v = obj(vec![
        ("a", Value::Array(vec![n(1), s("x"), Value::Null])),
        ("b", obj(vec![("c", s("true"))])),
    ]);
    let first = encode_toon(&v, &default_opts());
    let second = encode_toon(&v, &default_opts());
    assert_eq!(first, second);
}

#[test]
fn quoting_depends_on_delimiter() {
    let v = obj(vec![("x", s("a,b"))]);
    let opts = ToonOptions {
        delimiter: Delimiter::Pipe,
        ..default_opts()
    };
    assert_eq!(encode_toon(&v, &opts), "x: a,b");
    assert_eq!(encode_toon(&v, &default_opts()), "x: \"a,b\"");
}

#[test]
fn needs_quoting_rules() {
    assert!(needs_quoting("", Delimiter::Comma));
    assert!(needs_quoting("true", Delimiter::Comma));
    assert!(needs_quoting("false", Delimiter::Comma));
    assert!(needs_quoting("null", Delimiter::Comma));
    assert!(needs_quoting("-x", Delimiter::Comma));
    assert!(needs_quoting("42", Delimiter::Comma));
    assert!(needs_quoting("007", Delimiter::Comma));
    assert!(needs_quoting(" x", Delimiter::Comma));
    assert!(needs_quoting("x ", Delimiter::Comma));
    assert!(needs_quoting("a:b", Delimiter::Comma));
    assert!(needs_quoting("a,b", Delimiter::Comma));
    assert!(needs_quoting("a|b", Delimiter::Pipe));
    assert!(!needs_quoting("a,b", Delimiter::Pipe));
    assert!(!needs_quoting("hello", Delimiter::Comma));
    assert!(!needs_quoting("a b", Delimiter::Comma));
    assert!(!needs_quoting("trueish", Delimiter::Comma));
}

#[test]
fn looks_like_number_grammar() {
    assert!(looks_like_number("0"));
    assert!(looks_like_number("12"));
    assert!(looks_like_number("-3.5"));
    assert!(looks_like_number("1e10"));
    assert!(looks_like_number("1E+3"));
    assert!(looks_like_number("2.5e-1"));
    assert!(!looks_like_number(""));
    assert!(!looks_like_number("-"));
    assert!(!looks_like_number("1e"));
    assert!(!looks_like_number("1."));
    assert!(!looks_like_number(".5"));
    assert!(!looks_like_number("1.2.3"));
    assert!(!looks_like_number("1x"));
}

#[test]
fn identifier_rules() {
    assert!(is_valid_identifier("_x1"));
    assert!(is_valid_identifier("abc"));
    assert!(!is_valid_identifier(""));
    assert!(!is_valid_identifier("1x"));
    assert!(!is_valid_identifier("a-b"));
}

#[test]
fn key_formatting() {
    assert_eq!(format_key("plain", Delimiter::Comma), "plain");
    assert_eq!(format_key("true", Delimiter::Comma), "\"true\"");
    assert_eq!(format_key("a\tb", Delimiter::Comma), "\"a\\tb\"");
    assert_eq!(escape_string("a\\\"\n\r\tb"), "a\\\\\\\"\\n\\r\\tb");
}
