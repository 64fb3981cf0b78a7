//! The tree data model the encoder consumes: null, booleans, numbers,
//! strings, ordered arrays and ordered key-value objects.

use vstd::prelude::*;

verus! {

/// A numeric leaf, carried in already-decided textual form.
///
/// Integral values within `i64` (including zero and negative zero, which
/// callers collapse to `Int(0)`) are carried exactly. A non-integral finite
/// value is carried as `Dec`: `plain` is its shortest positional decimal
/// rendering and `precise` a high-precision fixed-point rendering with 20
/// fractional digits; the encoder falls back to `precise` (with trailing
/// zeros stripped) whenever `plain` uses exponential notation, so that the
/// output never contains an exponent marker. A NaN or infinite value is
/// carried as `NonFinite` and renders as `null`.
pub enum Number {
    Int(i64),
    Dec { plain: String, precise: String },
    NonFinite,
}

/// A tree value in the JSON data model. Object key order and array element
/// order are significant and preserved verbatim in the output.
pub enum Value {
    Null,
    Bool(bool),
    Number(Number),
    String(String),
    Array(Vec<Value>),
    Object(Vec<(String, Value)>),
}

/// Whether a value is a primitive scalar (anything but an array or object).
pub open spec fn is_primitive(v: Value) -> bool {
    match v {
        Value::Null => true,
        Value::Bool(_) => true,
        Value::Number(_) => true,
        Value::String(_) => true,
        Value::Array(_) => false,
        Value::Object(_) => false,
    }
}

/// Exec check that a value is a primitive scalar.
pub fn value_is_primitive(v: &Value) -> (b: bool)
    ensures
        b == is_primitive(*v),
{
    match v {
        Value::Null => true,
        Value::Bool(_) => true,
        Value::Number(_) => true,
        Value::String(_) => true,
        Value::Array(_) => false,
        Value::Object(_) => false,
    }
}

/// All elements of the sequence are primitive scalars.
pub open spec fn all_primitive(elems: Seq<Value>) -> bool {
    forall|i: int| 0 <= i < elems.len() ==> is_primitive(elems[i])
}

/// The first value bound to `key` at or after index `i`, if any.
pub open spec fn lookup_from(fields: Seq<(String, Value)>, key: Seq<char>, i: int) -> Option<
    Value,
>
    decreases fields.len() - i,
{
    if 0 <= i < fields.len() {
        if fields[i].0@ == key {
            Some(fields[i].1)
        } else {
            lookup_from(fields, key, i + 1)
        }
    } else {
        None
    }
}

/// The first value bound to `key` in an ordered field list, if any.
pub open spec fn lookup(fields: Seq<(String, Value)>, key: Seq<char>) -> Option<Value> {
    lookup_from(fields, key, 0)
}

/// The first value bound to `key`, or `Null` when the key is absent.
pub open spec fn get_or_null(fields: Seq<(String, Value)>, key: Seq<char>) -> Value {
    match lookup(fields, key) {
        Some(v) => v,
        None => Value::Null,
    }
}

/// An array element sits below the array in the termination order.
pub proof fn lemma_array_elem_decreases(v: Value, i: int)
    requires
        v is Array,
        0 <= i < v->Array_0@.len(),
    ensures
        decreases_to!(v => v->Array_0@[i]),
{
    assert(decreases_to!(v => v->Array_0));
    assert(decreases_to!(v->Array_0 => v->Array_0@));
    assert(decreases_to!(v->Array_0@ => v->Array_0@[i]));
}

/// An object's field list sits below the object in the termination order.
pub proof fn lemma_object_fields_decreases(v: Value)
    requires
        v is Object,
    ensures
        decreases_to!(v => v->Object_0@),
{
    assert(decreases_to!(v => v->Object_0));
    assert(decreases_to!(v->Object_0 => v->Object_0@));
}

/// A field's value sits below the object in the termination order.
pub proof fn lemma_object_field_value_decreases(v: Value, i: int)
    requires
        v is Object,
        0 <= i < v->Object_0@.len(),
    ensures
        decreases_to!(v => v->Object_0@[i].1),
{
    lemma_object_fields_decreases(v);
    assert(decreases_to!(v->Object_0@ => v->Object_0@[i].1));
}

/// A field's value sits below the whole field list in the termination order.
pub proof fn lemma_fields_value_decreases(fields: Seq<(String, Value)>, i: int)
    requires
        0 <= i < fields.len(),
    ensures
        decreases_to!(fields => fields[i].1),
{
    assert(decreases_to!(fields => fields[i].1));
}

} // verus!
