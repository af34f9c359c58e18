//! A JSON document as the library reads it: the values that the skill
//! sources answer with and that installed skills record.
use vstd::prelude::*;

use crate::text;

verus! {

/// A JSON value. Numbers are kept as their text; an object keeps its
/// members in order, each key once.
pub enum JsonValue {
    Null,
    Bool(bool),
    Number(String),
    Str(String),
    Array(Vec<JsonValue>),
    Object(Vec<(String, JsonValue)>),
}

/// The value of the first member named `key`.
pub open spec fn field_lookup(fields: Seq<(String, JsonValue)>, key: Seq<char>) -> Option<JsonValue>
    decreases fields.len(),
{
    if fields.len() == 0 {
        None
    } else if fields[0].0@ == key {
        Some(fields[0].1)
    } else {
        field_lookup(fields.drop_first(), key)
    }
}

/// `Value::get(key)`: the member `key` of an object; `None` for any other value.
pub open spec fn json_get(v: JsonValue, key: Seq<char>) -> Option<JsonValue> {
    match v {
        JsonValue::Object(fields) => field_lookup(fields@, key),
        _ => None,
    }
}

/// `Value::as_str`: the text of a string value.
pub open spec fn json_as_str(v: Option<JsonValue>) -> Option<Seq<char>> {
    match v {
        Some(JsonValue::Str(s)) => Some(s@),
        _ => None,
    }
}

/// The text of member `key`, when it is a string.
pub open spec fn get_str(v: JsonValue, key: Seq<char>) -> Option<Seq<char>> {
    json_as_str(json_get(v, key))
}

/// `a.or(b)` on optional values.
pub open spec fn or_else<T>(a: Option<T>, b: Option<T>) -> Option<T> {
    match a {
        Some(x) => Some(x),
        None => b,
    }
}

/// The member `key` of `v` (`Value::get`).
pub fn get<'a>(v: &'a JsonValue, key: &str) -> (r: Option<&'a JsonValue>)
    ensures
        match r {
            Some(x) => json_get(*v, key@) == Some(*x),
            None => json_get(*v, key@) is None,
        },
{
    match v {
        JsonValue::Object(fields) => {
            let k = text::chars_of(key);
            let mut i: usize = 0;
            assert(fields@.skip(0) =~= fields@);
            while i < fields.len()
                invariant
                    i <= fields.len(),
                    k@ == key@,
                    json_get(*v, key@) == field_lookup(fields@, key@),
                    field_lookup(fields@, key@) == field_lookup(fields@.skip(i as int), key@),
                decreases fields.len() - i,
            {
                let ghost rest = fields@.skip(i as int);
                assert(rest[0] == fields@[i as int]);
                let name = text::chars_of(fields[i].0.as_str());
                if text::chars_eq(&name, &k) {
                    return Some(&fields[i].1);
                }
                assert(rest.drop_first() =~= fields@.skip(i + 1));
                i = i + 1;
            }
            None
        },
        _ => None,
    }
}

/// The text of a string value (`Value::as_str`).
pub fn as_str<'a>(v: Option<&'a JsonValue>) -> (r: Option<&'a str>)
    ensures
        match r {
            Some(s) => json_as_str(opt_deref(v)) == Some(s@),
            None => json_as_str(opt_deref(v)) is None,
        },
{
    match v {
        Some(JsonValue::Str(s)) => Some(s.as_str()),
        _ => None,
    }
}

/// The value behind an optional reference.
pub open spec fn opt_deref(v: Option<&JsonValue>) -> Option<JsonValue> {
    match v {
        Some(x) => Some(*x),
        None => None,
    }
}

/// The text of member `key`, when it is a string.
pub fn get_str_exec<'a>(v: &'a JsonValue, key: &str) -> (r: Option<&'a str>)
    ensures
        match r {
            Some(s) => get_str(*v, key@) == Some(s@),
            None => get_str(*v, key@) is None,
        },
{
    as_str(get(v, key))
}

/// A string value.
pub fn string(s: &str) -> (v: JsonValue)
    ensures
        v matches JsonValue::Str(t) && t@ == s@,
{
    JsonValue::Str(text::owned(s))
}

/// A string value, or `null`.
pub fn opt_string(s: Option<String>) -> (v: JsonValue)
    ensures
        match s {
            Some(t) => v matches JsonValue::Str(u) && u@ == t@,
            None => v is Null,
        },
{
    match s {
        Some(t) => JsonValue::Str(t),
        None => JsonValue::Null,
    }
}

} // verus!
