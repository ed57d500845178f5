//! A JSON document model holding, as plain values, what the library reads of
//! the JSON it receives (streaming events, token claims, error bodies).
//! Objects keep serde_json's map semantics: each key occurs once.

use vstd::prelude::*;
use crate::text::str_eq;

verus! {

/// A JSON number: its `i64` value when it has one, and its text.
#[derive(Debug)]
pub struct JsonNumber {
    pub as_i64: Option<i64>,
    pub text: String,
}

/// A JSON value.
#[derive(Debug)]
pub enum JsonValue {
    Null,
    Bool(bool),
    Number(JsonNumber),
    String(String),
    Array(Vec<JsonValue>),
    Object(Vec<(String, JsonValue)>),
}

/// The value of the first entry named `key`.
pub open spec fn lookup(entries: Seq<(String, JsonValue)>, key: Seq<char>) -> Option<JsonValue>
    decreases entries.len(),
{
    if entries.len() == 0 {
        None
    } else {
        match lookup(entries.drop_last(), key) {
            Some(v) => Some(v),
            None => if entries.last().0@ == key {
                Some(entries.last().1)
            } else {
                None
            },
        }
    }
}

/// `Value::get(key)`: the member `key` of an object; nothing for other values.
pub open spec fn json_get(v: JsonValue, key: Seq<char>) -> Option<JsonValue> {
    match v {
        JsonValue::Object(entries) => lookup(entries@, key),
        _ => None,
    }
}

/// `Value::as_str`.
pub open spec fn json_str(v: JsonValue) -> Option<Seq<char>> {
    match v {
        JsonValue::String(s) => Some(s@),
        _ => None,
    }
}

/// `Value::as_i64`.
pub open spec fn json_i64(v: JsonValue) -> Option<i64> {
    match v {
        JsonValue::Number(n) => n.as_i64,
        _ => None,
    }
}

/// `get(key)` followed by `as_str`.
pub open spec fn json_get_str(v: JsonValue, key: Seq<char>) -> Option<Seq<char>> {
    match json_get(v, key) {
        Some(m) => json_str(m),
        None => None,
    }
}

/// The member at the end of the path `keys`, following `get` one key at a time.
pub open spec fn json_path(v: JsonValue, keys: Seq<Seq<char>>) -> Option<JsonValue>
    decreases keys.len(),
{
    if keys.len() == 0 {
        Some(v)
    } else {
        match json_get(v, keys[0]) {
            Some(m) => json_path(m, keys.drop_first()),
            None => None,
        }
    }
}

/// A string held by an optional value.
pub open spec fn opt_str(v: Option<JsonValue>) -> Option<Seq<char>> {
    match v {
        Some(m) => json_str(m),
        None => None,
    }
}

proof fn lemma_lookup_prefix(entries: Seq<(String, JsonValue)>, key: Seq<char>, i: int)
    requires
        0 <= i < entries.len(),
    ensures
        lookup(entries.take(i + 1), key) == match lookup(entries.take(i), key) {
            Some(v) => Some(v),
            None => if entries[i].0@ == key {
                Some(entries[i].1)
            } else {
                None
            },
        },
{
    assert(entries.take(i + 1).drop_last() == entries.take(i));
    assert(entries.take(i + 1).last() == entries[i]);
}

/// `Value::get(key)`.
pub fn get<'a>(v: &'a JsonValue, key: &str) -> (r: Option<&'a JsonValue>)
    ensures
        match r {
            Some(m) => json_get(*v, key@) == Some(*m),
            None => json_get(*v, key@) is None,
        },
{
    match v {
        JsonValue::Object(entries) => {
            assert(json_get(*v, key@) == lookup(entries@, key@));
            let mut i: usize = 0;
            while i < entries.len()
                invariant
                    i <= entries@.len(),
                    json_get(*v, key@) == lookup(entries@, key@),
                    lookup(entries@.take(i as int), key@) is None,
                decreases entries@.len() - i,
            {
                proof {
                    lemma_lookup_prefix(entries@, key@, i as int);
                }
                if str_eq(entries[i].0.as_str(), key) {
                    assert(lookup(entries@.take(i as int + 1), key@) == Some(entries@[i as int].1));
                    proof {
                        lemma_lookup_prefix_extends(entries@, key@, i as int + 1);
                    }
                    return Some(&entries[i].1);
                }
                i = i + 1;
            }
            assert(entries@.take(entries@.len() as int) == entries@);
            None
        },
        _ => None,
    }
}

/// Once a prefix finds `key`, the whole sequence finds the same value.
proof fn lemma_lookup_prefix_extends(entries: Seq<(String, JsonValue)>, key: Seq<char>, i: int)
    requires
        0 <= i <= entries.len(),
        lookup(entries.take(i), key) is Some,
    ensures
        lookup(entries, key) == lookup(entries.take(i), key),
    decreases entries.len() - i,
{
    if i < entries.len() {
        lemma_lookup_prefix(entries, key, i);
        lemma_lookup_prefix_extends(entries, key, i + 1);
    } else {
        assert(entries.take(i) == entries);
    }
}

/// `Value::as_str`.
pub fn as_str(v: &JsonValue) -> (r: Option<&String>)
    ensures
        match r {
            Some(s) => json_str(*v) == Some(s@),
            None => json_str(*v) is None,
        },
{
    match v {
        JsonValue::String(s) => Some(s),
        _ => None,
    }
}

/// `get(key)` followed by `as_str`.
pub fn get_str<'a>(v: &'a JsonValue, key: &str) -> (r: Option<&'a String>)
    ensures
        match r {
            Some(s) => json_get_str(*v, key@) == Some(s@),
            None => json_get_str(*v, key@) is None,
        },
{
    match get(v, key) {
        Some(m) => as_str(m),
        None => None,
    }
}

/// `Value::as_i64`.
pub fn as_i64(v: &JsonValue) -> (r: Option<i64>)
    ensures
        r == json_i64(*v),
{
    match v {
        JsonValue::Number(n) => n.as_i64,
        _ => None,
    }
}

/// The member `key`, moved out of the value.
pub fn into_member(v: JsonValue, key: &str) -> (r: Option<JsonValue>)
    ensures
        r == json_get(v, key@),
{
    match v {
        JsonValue::Object(entries) => {
            let ghost all = entries@;
            let mut found: Option<JsonValue> = None;
            for entry in it: entries
                invariant
                    it.seq() == all,
                    found == lookup(all.take(it.index() as int), key@),
            {
                proof {
                    lemma_lookup_prefix(all, key@, it.index() as int);
                }
                let (k, val) = entry;
                if found.is_none() && str_eq(k.as_str(), key) {
                    found = Some(val);
                }
            }
            assert(all.take(all.len() as int) == all);
            found
        },
        _ => None,
    }
}

/// The members `first` and `second`, moved out of the value.
pub fn into_members(v: JsonValue, first: &str, second: &str) -> (r: (
    Option<JsonValue>,
    Option<JsonValue>,
))
    requires
        first@ != second@,
    ensures
        r.0 == json_get(v, first@),
        r.1 == json_get(v, second@),
{
    match v {
        JsonValue::Object(entries) => {
            let ghost all = entries@;
            let mut a: Option<JsonValue> = None;
            let mut b: Option<JsonValue> = None;
            for entry in it: entries
                invariant
                    it.seq() == all,
                    first@ != second@,
                    a == lookup(all.take(it.index() as int), first@),
                    b == lookup(all.take(it.index() as int), second@),
            {
                proof {
                    lemma_lookup_prefix(all, first@, it.index() as int);
                    lemma_lookup_prefix(all, second@, it.index() as int);
                }
                let (k, val) = entry;
                let is_a = a.is_none() && str_eq(k.as_str(), first);
                let is_b = b.is_none() && str_eq(k.as_str(), second);
                if is_a {
                    a = Some(val);
                } else if is_b {
                    b = Some(val);
                }
            }
            assert(all.take(all.len() as int) == all);
            (a, b)
        },
        _ => (None, None),
    }
}

} // verus!
