//! The JSON model that context fragments are written in.
//!
//! The engine never inspects the value of a number, so the `Number`
//! variant carries no payload.  Objects are ordered lists of entries;
//! lookup finds the first entry with the key, so a duplicated key means
//! the later entry is ignored.

use vstd::prelude::*;
use vstd::string::*;
use crate::strutil::str_eq;

verus! {

/// A JSON value, as far as context processing needs to see one.
#[derive(Debug)]
pub enum JsonValue {
    /// JSON `null`.
    Null,
    /// A JSON boolean.
    Bool(bool),
    /// A JSON number; its value never matters to context processing.
    Number,
    /// A JSON string.
    Str(String),
    /// A JSON array.
    Array(Vec<JsonValue>),
    /// A JSON object: entries in document order.
    Object(Vec<(String, JsonValue)>),
}

/// The first entry of `entries` at or after `i` whose key reads `key`.
pub open spec fn lc_get_from(entries: Seq<(String, JsonValue)>, key: Seq<char>, i: int) -> Option<
    JsonValue,
>
    decreases entries.len() - i,
    when 0 <= i <= entries.len()
{
    if i >= entries.len() {
        None
    } else if entries[i].0@ == key {
        Some(entries[i].1)
    } else {
        lc_get_from(entries, key, i + 1)
    }
}

/// The first entry of `entries` whose key reads `key`.
pub open spec fn lc_get(entries: Seq<(String, JsonValue)>, key: Seq<char>) -> Option<JsonValue> {
    lc_get_from(entries, key, 0)
}

/// Whether some entry of `entries` has the key `key`.
pub open spec fn lc_has(entries: Seq<(String, JsonValue)>, key: Seq<char>) -> bool {
    lc_get(entries, key) is Some
}

/// A found key is witnessed by an entry.
pub proof fn lemma_lc_get_exists(entries: Seq<(String, JsonValue)>, key: Seq<char>, i: int)
    requires
        0 <= i <= entries.len(),
        lc_get_from(entries, key, i) is Some,
    ensures
        exists|j: int| i <= j < entries.len() && #[trigger] entries[j].0@ == key,
    decreases entries.len() - i,
{
    if i >= entries.len() {
    } else if entries[i].0@ == key {
    } else {
        lemma_lc_get_exists(entries, key, i + 1);
    }
}

/// Looks a key up in an object's entry list, matching `lc_get`.
pub fn obj_get<'a>(entries: &'a Vec<(String, JsonValue)>, key: &str) -> (r: Option<&'a JsonValue>)
    ensures
        match r {
            Some(v) => lc_get(entries@, key@) == Some(*v),
            None => lc_get(entries@, key@) is None,
        },
{
    let mut i: usize = 0;
    while i < entries.len()
        invariant
            0 <= i <= entries@.len(),
            lc_get(entries@, key@) == lc_get_from(entries@, key@, i as int),
        decreases entries@.len() - i,
    {
        if str_eq(entries[i].0.as_str(), key) {
            return Some(&entries[i].1);
        }
        i = i + 1;
    }
    None
}

/// The position of some entry whose key reads `key`, if one exists;
/// used to take a loaded document's context member out by value.
pub fn find_key_index(entries: &Vec<(String, JsonValue)>, key: &str) -> (r: Option<usize>)
    ensures
        match r {
            Some(j) => j < entries@.len() && entries@[j as int].0@ == key@,
            None => !lc_has(entries@, key@),
        },
{
    let mut i: usize = 0;
    while i < entries.len()
        invariant
            0 <= i <= entries@.len(),
            lc_get(entries@, key@) == lc_get_from(entries@, key@, i as int),
        decreases entries@.len() - i,
    {
        if str_eq(entries[i].0.as_str(), key) {
            return Some(i);
        }
        i = i + 1;
    }
    None
}

/// Whether the object's entry list holds the key, matching `lc_has`.
pub fn obj_has(entries: &Vec<(String, JsonValue)>, key: &str) -> (r: bool)
    ensures
        r == lc_has(entries@, key@),
{
    obj_get(entries, key).is_some()
}

} // verus!
