use format_as_toon::{encode_toon, Delimiter, KeyFolding, Number, ToonOptions, Value};

fn conv(v: &serde_json::Value) -> Value {
    match v {
        serde_json::Value::Null => Value::Null,
        serde_json::Value::Bool(b) => Value::Bool(*b),
        serde_json::Value::Number(n) => Value::Number(conv_number(n)),
        serde_json::Value::String(s) => Value::String(s.clone()),
        serde_json::Value::Array(a) => Value::Array(a.iter().map(conv).collect()),
        serde_json::Value::Object(m) => {
            Value::Object(m.iter().map(|(k, v)| (k.clone(), conv(v))).collect())
        }
    }
}

fn conv_number(n: &serde_json::Number) -> Number {
    if let Some(f) = n.as_f64() {
        if f == 0.0 {
            return Number::Int(0);
        }
        if f.is_nan() || f.is_infinite() {
            return Number::NonFinite;
        }
        if f.fract() == 0.0 && f.abs() < (i64::MAX as f64) {
            return Number::Int(f as i64);
        }
        Number::Dec {
            plain: format!("{f}"),
            precise: format!("{f:.20}"),
        }
    } else {
        Number::Dec {
            plain: n.to_string(),
            precise: n.to_string(),
        }
    }
}

fn parse(s: &str) -> Value {
    let v: serde_json::Value = serde_json::from_str(s).unwrap();
    conv(&v)
}

fn default_opts() -> ToonOptions {
    ToonOptions::default()
}

#[test]
fn test_simple_object() {
    let v = parse(r#"{"name":"Alice","age":30}"#);
    let out = encode_toon(&v, &default_opts());
    assert_eq!(out, "name: Alice\nage: 30");
}

#[test]
fn test_nested_object() {
    let v = parse(r#"{"user":{"name":"Alice","age":30}}"#);
    let out = encode_toon(&v, &default_opts());
    assert_eq!(out, "user:\n  name: Alice\n  age: 30");
}

#[test]
fn test_primitive_array() {
    let v = parse(r#"{"tags":["a","b","c"]}"#);
    let out = encode_toon(&v, &default_opts());
    assert_eq!(out, "tags[3]: a,b,c");
}

#[test]
fn test_tabular_array() {
    let v = parse(r#"{"users":[{"id":1,"name":"Alice"},{"id":2,"name":"Bob"}]}"#);
    let out = encode_toon(&v, &default_opts());
    assert_eq!(out, "users[2]{id,name}:\n  1,Alice\n  2,Bob");
}

#[test]
fn test_key_folding() {
    let v = parse(r#"{"data":{"metadata":{"name":"test"}}}"#);
    let opts = ToonOptions {
        key_folding: KeyFolding::Safe,
        ..default_opts()
    };
    let out = encode_toon(&v, &opts);
    assert_eq!(out, "data.metadata.name: test");
}

#[test]
fn test_quoting() {
    let v = parse(r#"{"x":"true","y":"","z":"a,b"}"#);
    let out = encode_toon(&v, &default_opts());
    assert_eq!(out, "x: \"true\"\ny: \"\"\nz: \"a,b\"");
}

#[test]
fn test_root_array() {
    let v = parse("[1,2,3]");
    let out = encode_toon(&v, &default_opts());
    assert_eq!(out, "[3]: 1,2,3");
}

#[test]
fn test_pipe_delimiter() {
    let v = parse(r#"{"items":["a","b"]}"#);
    let opts = ToonOptions {
        delimiter: Delimiter::Pipe,
        ..default_opts()
    };
    let out = encode_toon(&v, &opts);
    assert_eq!(out, "items[2|]: a|b");
}

#[test]
fn test_empty_object() {
    let v = parse(r#"{"x":{}}"#);
    let out = encode_toon(&v, &default_opts());
    assert_eq!(out, "x:");
}

#[test]
fn test_empty_array() {
    let v = parse(r#"{"x":[]}"#);
    let out = encode_toon(&v, &default_opts());
    assert_eq!(out, "x[0]:");
}

#[test]
fn test_number_formatting() {
    let v = parse(r#"{"a":1.0,"b":-0,"c":3.14}"#);
    let out = encode_toon(&v, &default_opts());
    assert_eq!(out, "a: 1\nb: 0\nc: 3.14");
}

#[test]
fn test_flatten_depth() {
    let v = parse(r#"{"a":{"b":{"c":{"d":"val"}}}}"#);
    let opts = ToonOptions {
        key_folding: KeyFolding::Safe,
        flatten_depth: 1,
        ..default_opts()
    };
    let out = encode_toon(&v, &opts);
    assert_eq!(out, "a.b:\n  c.d: val");
}
