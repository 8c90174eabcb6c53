//! JSON documents as plain values, and what reading a member or a leaf gives.
use vstd::prelude::*;
use crate::numbers::{parse_u64, u64_of};
use crate::text::{chars_of, eq_str, owned};

verus! {

/// A JSON value: objects keep their members in order, numbers are either
/// unsigned integers that fit in 64 bits or the text of another number.
pub enum JsonValue {
    Null,
    Bool(bool),
    UInt(u64),
    OtherNumber(String),
    Str(String),
    Array(Vec<JsonValue>),
    Object(Vec<(String, JsonValue)>),
}

/// The value of the last member called `key`, as a map filled from the
/// members in order holds it.
pub open spec fn member(ms: Seq<(String, JsonValue)>, key: Seq<char>) -> Option<JsonValue>
    decreases ms.len(),
{
    if ms.len() == 0 {
        None
    } else if ms.last().0@ == key {
        Some(ms.last().1)
    } else {
        member(ms.drop_last(), key)
    }
}

/// The member `key` of an object; none for a value that is not an object.
pub open spec fn json_get(v: JsonValue, key: Seq<char>) -> Option<JsonValue> {
    match v {
        JsonValue::Object(ms) => member(ms@, key),
        _ => None,
    }
}

/// The text of a string value.
pub open spec fn json_text(v: JsonValue) -> Option<Seq<char>> {
    match v {
        JsonValue::Str(s) => Some(s@),
        _ => None,
    }
}

/// The elements of an array value.
pub open spec fn json_items(v: JsonValue) -> Option<Seq<JsonValue>> {
    match v {
        JsonValue::Array(a) => Some(a@),
        _ => None,
    }
}

/// A count: an unsigned integer, or a string that reads as one.
pub open spec fn json_count(v: JsonValue) -> Option<u64> {
    match v {
        JsonValue::UInt(n) => Some(n),
        JsonValue::Str(s) => u64_of(s@),
        _ => None,
    }
}

/// A flag: the string `TRUE`, or `true`.
pub open spec fn json_flag(v: JsonValue) -> bool {
    match v {
        JsonValue::Str(s) => s@ == "TRUE"@,
        JsonValue::Bool(b) => b,
        _ => false,
    }
}

/// The text of the string member `key`, if there is one.
pub open spec fn text_member(v: JsonValue, key: Seq<char>) -> Option<Seq<char>> {
    match json_get(v, key) {
        Some(x) => json_text(x),
        None => None,
    }
}

/// The member `key` of an object.
pub fn get_member<'a>(v: &'a JsonValue, key: &str) -> (r: Option<&'a JsonValue>)
    ensures
        match json_get(*v, key@) {
            Some(x) => r == Some(&x),
            None => r is None,
        },
{
    match v {
        JsonValue::Object(ms) => {
            let mut i = ms.len();
            assert(ms@.take(i as int) =~= ms@);
            while i > 0
                invariant
                    i <= ms.len(),
                    member(ms@, key@) == member(ms@.take(i as int), key@),
                    json_get(*v, key@) == member(ms@, key@),
                decreases i,
            {
                let ghost t = ms@.take(i as int);
                assert(t.drop_last() =~= ms@.take(i - 1));
                assert(t.last() == ms@[i - 1]);
                if eq_str(&chars_of(ms[i - 1].0.as_str()), key) {
                    return Some(&ms[i - 1].1);
                }
                i -= 1;
            }
            None
        },
        _ => None,
    }
}

/// The text of a string value.
pub fn get_text(v: &JsonValue) -> (r: Option<String>)
    ensures
        match json_text(*v) {
            Some(t) => r matches Some(s) && s@ == t,
            None => r is None,
        },
{
    match v {
        JsonValue::Str(s) => Some(owned(s.as_str())),
        _ => None,
    }
}

/// The text of the string member `key`, if there is one.
pub fn get_text_member(v: &JsonValue, key: &str) -> (r: Option<String>)
    ensures
        match text_member(*v, key@) {
            Some(t) => r matches Some(s) && s@ == t,
            None => r is None,
        },
{
    match get_member(v, key) {
        Some(x) => get_text(x),
        None => None,
    }
}

/// A count: an unsigned integer, or a string that reads as one.
pub fn get_count(v: &JsonValue) -> (r: Option<u64>)
    ensures
        r == json_count(*v),
{
    match v {
        JsonValue::UInt(n) => Some(*n),
        JsonValue::Str(s) => parse_u64(&chars_of(s.as_str())),
        _ => None,
    }
}

/// A flag: the string `TRUE`, or `true`.
pub fn get_flag(v: &JsonValue) -> (r: bool)
    ensures
        r == json_flag(*v),
{
    match v {
        JsonValue::Str(s) => eq_str(&chars_of(s.as_str()), "TRUE"),
        JsonValue::Bool(b) => *b,
        _ => false,
    }
}

} // verus!
