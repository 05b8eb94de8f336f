//! A JSON document as the library reads it, and the checks that an
//! exported project file must pass before it is imported.
use vstd::prelude::*;

use crate::numbers::{decimal_of_u128, spec_decimal};
use crate::text::{chars_of, chars_eq, string_of};

verus! {

/// A JSON number: a non-negative integer, a negative integer, or any other
/// number kept as its text.
pub enum JsonNumber {
    PosInt(u64),
    NegInt(i64),
    Float(String),
}

/// A JSON value. An object keeps its members in order; a document read
/// from text has each key once.
pub enum JsonValue {
    Null,
    Bool(bool),
    Number(JsonNumber),
    Str(String),
    Array(Vec<JsonValue>),
    Object(Vec<(String, JsonValue)>),
}

/// The value of the first member named `key` among `fields`.
pub open spec fn first_field(fields: Seq<(String, JsonValue)>, key: Seq<char>) -> Option<JsonValue>
    decreases fields.len(),
{
    if fields.len() == 0 {
        None
    } else if fields[0].0@ == key {
        Some(fields[0].1)
    } else {
        first_field(fields.drop_first(), key)
    }
}

/// `Value::get(key)`: the member `key` of an object; `None` for anything
/// else.
pub open spec fn json_get(v: JsonValue, key: Seq<char>) -> Option<JsonValue> {
    match v {
        JsonValue::Object(fields) => first_field(fields@, key),
        _ => None,
    }
}

/// `Value::as_str`: the text of a string.
pub open spec fn json_str(v: Option<JsonValue>) -> Option<Seq<char>> {
    match v {
        Some(JsonValue::Str(s)) => Some(s@),
        _ => None,
    }
}

/// `Value::as_u64`: a non-negative integer.
pub open spec fn json_u64(v: Option<JsonValue>) -> Option<u64> {
    match v {
        Some(JsonValue::Number(JsonNumber::PosInt(n))) => Some(n),
        _ => None,
    }
}

/// `Value::as_array`: the elements of an array.
pub open spec fn json_array(v: Option<JsonValue>) -> Option<Seq<JsonValue>> {
    match v {
        Some(JsonValue::Array(a)) => Some(a@),
        _ => None,
    }
}

/// The member `key` of `v`.
pub fn get<'a>(v: &'a JsonValue, key: &str) -> (r: Option<&'a JsonValue>)
    ensures
        r matches Some(x) ==> json_get(*v, key@) == Some(*x),
        r is None ==> json_get(*v, key@) is None,
{
    match v {
        JsonValue::Object(fields) => {
            let k = chars_of(key);
            let mut i: usize = 0;
            assert(fields@.skip(0) == fields@);
            while i < fields.len()
                invariant
                    i <= fields.len(),
                    *v == JsonValue::Object(*fields),
                    k@ == key@,
                    first_field(fields@, key@) == first_field(fields@.skip(i as int), key@),
                decreases fields.len() - i,
            {
                let fk = chars_of(fields[i].0.as_str());
                assert(fields@.skip(i as int)[0] == fields@[i as int]);
                if chars_eq(fk.as_slice(), k.as_slice()) {
                    assert(fields@.skip(i as int).len() > 0);
                    assert(fields@.skip(i as int)[0].0@ == key@);
                    assert(first_field(fields@.skip(i as int), key@) == Some(fields@[i as int].1));
                    return Some(&fields[i].1);
                }
                assert(fields@.skip(i as int).drop_first() == fields@.skip(i + 1));
                i += 1;
            }
            None
        },
        _ => None,
    }
}

/// The text of `v`, if it is a string.
pub fn as_str(v: Option<&JsonValue>) -> (r: Option<&String>)
    ensures
        match v {
            Some(x) => json_str(Some(*x)),
            None => json_str(None),
        } == match r {
            Some(s) => Some(s@),
            None => None,
        },
{
    match v {
        Some(JsonValue::Str(s)) => Some(s),
        _ => None,
    }
}

/// The integer of `v`, if it is a non-negative integer.
pub fn as_u64(v: Option<&JsonValue>) -> (r: Option<u64>)
    ensures
        r == match v {
            Some(x) => json_u64(Some(*x)),
            None => json_u64(None),
        },
{
    match v {
        Some(JsonValue::Number(JsonNumber::PosInt(n))) => Some(*n),
        _ => None,
    }
}

/// The elements of `v`, if it is an array.
pub fn as_array(v: Option<&JsonValue>) -> (r: Option<&Vec<JsonValue>>)
    ensures
        match v {
            Some(x) => json_array(Some(*x)),
            None => json_array(None),
        } == match r {
            Some(a) => Some(a@),
            None => None,
        },
{
    match v {
        Some(JsonValue::Array(a)) => Some(a),
        _ => None,
    }
}

// ---------------------------------------------------------------------------
// Validation of an exported project file
// ---------------------------------------------------------------------------

/// The first request (by position) without a string `method`.
pub open spec fn first_without_method(reqs: Seq<JsonValue>, from: int) -> Option<int>
    decreases reqs.len() - from,
{
    if from < 0 || from >= reqs.len() {
        None
    } else if json_str(json_get(reqs[from], "method"@)) is None {
        Some(from)
    } else {
        first_without_method(reqs, from + 1)
    }
}

/// The message for the request at `i` that lacks a method.
pub open spec fn missing_method_message(i: int) -> Seq<char> {
    "requests["@ + spec_decimal(i) + "] missing 'method'"@
}

/// What the check of a project file says: the root must be an object with
/// a `version` of at least 1 and a string `name`; `requests`, when present,
/// must be an array whose every element has a string `method`.
pub open spec fn spec_validate_export(doc: JsonValue) -> Result<(), Seq<char>> {
    match doc {
        JsonValue::Object(_) => {
            let version = json_u64(json_get(doc, "version"@));
            if version is None || version.unwrap() < 1 {
                Err("Missing or invalid 'version' field"@)
            } else if json_str(json_get(doc, "name"@)) is None {
                Err("Missing 'name' field"@)
            } else {
                match json_get(doc, "requests"@) {
                    None => Ok(()),
                    Some(reqs) => match reqs {
                        JsonValue::Array(a) => match first_without_method(a@, 0) {
                            Some(i) => Err(missing_method_message(i)),
                            None => Ok(()),
                        },
                        _ => Err("'requests' must be an array"@),
                    },
                }
            }
        },
        _ => Err("Root must be a JSON object"@),
    }
}

/// A check result with the error as characters.
pub open spec fn unit_result_view(r: Result<(), String>) -> Result<(), Seq<char>> {
    match r {
        Ok(()) => Ok(()),
        Err(e) => Err(e@),
    }
}

/// Checks a project file as `spec_validate_export` says.
pub fn validate_export(doc: &JsonValue) -> (r: Result<(), String>)
    ensures
        unit_result_view(r) == spec_validate_export(*doc),
{
    match doc {
        JsonValue::Object(_) => {},
        _ => {
            return Err(String::from_str("Root must be a JSON object"));
        },
    }
    let version = as_u64(get(doc, "version"));
    let ok_version = match version {
        Some(v) => v >= 1,
        None => false,
    };
    if !ok_version {
        return Err(String::from_str("Missing or invalid 'version' field"));
    }
    if as_str(get(doc, "name")).is_none() {
        return Err(String::from_str("Missing 'name' field"));
    }
    match get(doc, "requests") {
        None => Ok(()),
        Some(reqs) => match reqs {
            JsonValue::Array(a) => {
                let ghost expected = spec_validate_export(*doc);
                assert(expected == match first_without_method(a@, 0) {
                    Some(i) => Err(missing_method_message(i)),
                    None => Ok::<(), Seq<char>>(()),
                });
                let mut i: usize = 0;
                while i < a.len()
                    invariant
                        i <= a.len(),
                        expected == spec_validate_export(*doc),
                        expected == match first_without_method(a@, 0) {
                            Some(i) => Err(missing_method_message(i)),
                            None => Ok::<(), Seq<char>>(()),
                        },
                        first_without_method(a@, 0) == first_without_method(a@, i as int),
                    decreases a.len() - i,
                {
                    if as_str(get(&a[i], "method")).is_none() {
                        let digits = decimal_of_u128(i as u128);
                        let d = string_of(digits.as_slice());
                        let msg = crate::text::concat3("requests[", d.as_str(), "] missing 'method'");
                        assert(spec_decimal(i as int) == d@);
                        assert(first_without_method(a@, i as int) == Some(i as int));
                        assert(msg@ == missing_method_message(i as int));
                        return Err(msg);
                    }
                    i += 1;
                }
                Ok(())
            },
            _ => Err(String::from_str("'requests' must be an array")),
        },
    }
}

} // verus!
