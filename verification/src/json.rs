//! A plain model of JSON values, filled by `serde_json` behind one
//! trusted parser, and navigated by verified code.

use vstd::prelude::*;

verus! {

/// A JSON document as plain values. Numbers are kept as `i64`: every
/// numeric field the tracker protocol reads (sizes, counts) is integral,
/// and a non-integral number is read as 0.
#[derive(Debug)]
pub enum JsonVal {
    Null,
    Bool(bool),
    Int(i64),
    Str(String),
    Arr(Vec<JsonVal>),
    Obj(Vec<(String, JsonVal)>),
}

/// What `serde_json` parses a given text into, under the model above.
/// A function of the text alone.
pub uninterp spec fn json_of(s: Seq<char>) -> Option<JsonVal>;

#[verifier::external_type_specification]
#[verifier::external_body]
pub struct ExValue(serde_json::Value);

/// Relies on serde_json's `Value` enum: each variant is carried over
/// one-to-one; a number is read through `as_i64`.
#[verifier::external_body]
fn value_to_model(v: serde_json::Value) -> JsonVal {
    match v {
        serde_json::Value::Null => JsonVal::Null,
        serde_json::Value::Bool(b) => JsonVal::Bool(b),
        serde_json::Value::Number(n) => JsonVal::Int(n.as_i64().unwrap_or(0)),
        serde_json::Value::String(s) => JsonVal::Str(s),
        serde_json::Value::Array(a) => JsonVal::Arr(a.into_iter().map(value_to_model).collect()),
        serde_json::Value::Object(m) => JsonVal::Obj(
            m.into_iter().map(|(k, x)| (k, value_to_model(x))).collect(),
        ),
    }
}

/// Relies on serde_json::from_str::<Value>: deterministic parse of a JSON
/// text; the result is named `json_of`.
#[verifier::external_body]
pub(crate) fn parse_json(s: &str) -> (r: Option<JsonVal>)
    ensures
        r == json_of(s@),
{
    match serde_json::from_str::<serde_json::Value>(s) {
        Ok(v) => Some(value_to_model(v)),
        Err(_) => None,
    }
}

/// First value bound to `key` in an object's field list.
pub open spec fn spec_obj_lookup(fields: Seq<(String, JsonVal)>, key: Seq<char>) -> Option<
    JsonVal,
>
    decreases fields.len(),
{
    if fields.len() == 0 {
        None
    } else if fields[0].0@ == key {
        Some(fields[0].1)
    } else {
        spec_obj_lookup(fields.skip(1), key)
    }
}

/// Field lookup: the first binding of `key`, when `v` is an object.
pub open spec fn spec_lookup(v: JsonVal, key: Seq<char>) -> Option<JsonVal> {
    match v {
        JsonVal::Obj(fields) => spec_obj_lookup(fields@, key),
        _ => None,
    }
}

/// Looks a key up in a JSON object.
pub fn lookup<'a>(v: &'a JsonVal, key: &str) -> (r: Option<&'a JsonVal>)
    ensures
        match r {
            Some(f) => spec_lookup(*v, key@) == Some(*f),
            None => spec_lookup(*v, key@) is None,
        },
{
    match v {
        JsonVal::Obj(fields) => {
            let n = fields.len();
            let mut i: usize = 0;
            proof {
                assert(fields@.skip(0) =~= fields@);
                assert(*v == JsonVal::Obj(*fields));
                assert(spec_lookup(*v, key@) == spec_obj_lookup(fields@, key@));
            }
            while i < n
                invariant
                    n == fields@.len(),
                    i <= n,
                    spec_lookup(*v, key@) == spec_obj_lookup(fields@, key@),
                    spec_obj_lookup(fields@, key@) == spec_obj_lookup(fields@.skip(i as int), key@),
                decreases n - i,
            {
                proof {
                    assert(fields@.skip(i as int)[0] == fields@[i as int]);
                    assert(fields@.skip(i as int).skip(1) =~= fields@.skip(i + 1));
                }
                if crate::text::str_eq(fields[i].0.as_str(), key) {
                    proof {
                        assert(spec_obj_lookup(fields@.skip(i as int), key@) == Some(
                            fields@[i as int].1,
                        ));
                    }
                    return Some(&fields[i].1);
                }
                i = i + 1;
            }
            proof {
                assert(fields@.skip(n as int).len() == 0);
            }
            None
        },
        _ => None,
    }
}

/// The string content, when `v` is a JSON string.
pub fn as_str<'a>(v: &'a JsonVal) -> (r: Option<&'a String>)
    ensures
        match r {
            Some(s) => v matches JsonVal::Str(t) && t == *s,
            None => !(v matches JsonVal::Str(_)),
        },
{
    match v {
        JsonVal::Str(s) => Some(s),
        _ => None,
    }
}

/// The integer content, when `v` is a JSON number.
pub fn as_int(v: &JsonVal) -> (r: Option<i64>)
    ensures
        match r {
            Some(n) => *v == JsonVal::Int(n),
            None => !(v matches JsonVal::Int(_)),
        },
{
    match v {
        JsonVal::Int(n) => Some(*n),
        _ => None,
    }
}

/// The boolean content, when `v` is a JSON boolean.
pub fn as_bool(v: &JsonVal) -> (r: Option<bool>)
    ensures
        match r {
            Some(b) => *v == JsonVal::Bool(b),
            None => !(v matches JsonVal::Bool(_)),
        },
{
    match v {
        JsonVal::Bool(b) => Some(*b),
        _ => None,
    }
}

/// The element list, when `v` is a JSON array.
pub fn as_arr<'a>(v: &'a JsonVal) -> (r: Option<&'a Vec<JsonVal>>)
    ensures
        match r {
            Some(a) => v matches JsonVal::Arr(b) && b == *a,
            None => !(v matches JsonVal::Arr(_)),
        },
{
    match v {
        JsonVal::Arr(a) => Some(a),
        _ => None,
    }
}

} // verus!
