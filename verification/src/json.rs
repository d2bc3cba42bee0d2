//! A JSON document as plain values, and the lookups the detection logic makes
//! in `package.json`.
use vstd::prelude::*;

use crate::text::str_eq;
use serde_json::Value;

verus! {

/// A parsed JSON value. Object members are held in the order the parser
/// hands them over; a number is held as the text the parser renders for it.
pub enum JsonValue {
    Null,
    Bool(bool),
    Number(String),
    Str(String),
    Array(Vec<JsonValue>),
    Object(Vec<(String, JsonValue)>),
}

/// The value of the first member named `key`.
pub open spec fn lookup(members: Seq<(String, JsonValue)>, key: Seq<char>) -> Option<JsonValue>
    decreases members.len(),
{
    if members.len() == 0 {
        None
    } else if members[0].0@ == key {
        Some(members[0].1)
    } else {
        lookup(members.drop_first(), key)
    }
}

/// `Value::get` with a string key: the member of an object, `None` for
/// anything else.
pub open spec fn get(v: JsonValue, key: Seq<char>) -> Option<JsonValue> {
    match v {
        JsonValue::Object(members) => lookup(members@, key),
        _ => None,
    }
}

/// The member names of `v` when it is an object, in order; nothing otherwise.
pub open spec fn object_keys(v: Option<JsonValue>) -> Seq<Seq<char>> {
    match v {
        Some(JsonValue::Object(members)) => members@.map_values(|m: (String, JsonValue)| m.0@),
        _ => Seq::empty(),
    }
}

/// The items of `items` that are strings, in order.
pub open spec fn string_items(items: Seq<JsonValue>) -> Seq<Seq<char>>
    decreases items.len(),
{
    if items.len() == 0 {
        Seq::empty()
    } else {
        string_items(items.drop_last()) + match items.last() {
            JsonValue::Str(s) => seq![s@],
            _ => Seq::empty(),
        }
    }
}

/// The members of `members` whose value is a string, as (name, text) pairs.
pub open spec fn string_members(members: Seq<(String, JsonValue)>) -> Seq<(Seq<char>, Seq<char>)>
    decreases members.len(),
{
    if members.len() == 0 {
        Seq::empty()
    } else {
        string_members(members.drop_last()) + match members.last().1 {
            JsonValue::Str(s) => seq![(members.last().0@, s@)],
            _ => Seq::empty(),
        }
    }
}

/// The views of a sequence of strings.
pub open spec fn texts(v: Seq<String>) -> Seq<Seq<char>> {
    v.map_values(|s: String| s@)
}

/// The views of a sequence of string pairs.
pub open spec fn text_pairs(v: Seq<(String, String)>) -> Seq<(Seq<char>, Seq<char>)> {
    v.map_values(|p: (String, String)| (p.0@, p.1@))
}

proof fn lemma_lookup_skip(members: Seq<(String, JsonValue)>, key: Seq<char>, i: int)
    requires
        0 <= i <= members.len(),
        forall|j: int| 0 <= j < i ==> (#[trigger] members[j]).0@ != key,
    ensures
        lookup(members, key) == lookup(members.skip(i), key),
    decreases i,
{
    if i > 0 {
        assert(members.drop_first().skip(i - 1) =~= members.skip(i));
        lemma_lookup_skip(members.drop_first(), key, i - 1);
    } else {
        assert(members.skip(0) =~= members);
    }
}

/// The member of the object `v` named `key` (`Value::get`).
pub fn json_get<'a>(v: &'a JsonValue, key: &str) -> (r: Option<&'a JsonValue>)
    ensures
        match r {
            Some(x) => get(*v, key@) == Some(*x),
            None => get(*v, key@) is None,
        },
{
    match v {
        JsonValue::Object(members) => {
            let mut i: usize = 0;
            while i < members.len()
                invariant
                    i <= members@.len(),
                    get(*v, key@) == lookup(members@, key@),
                    forall|j: int| 0 <= j < i ==> (#[trigger] members@[j]).0@ != key@,
                decreases members@.len() - i,
            {
                if str_eq(members[i].0.as_str(), key) {
                    proof {
                        lemma_lookup_skip(members@, key@, i as int);
                        assert(members@.skip(i as int)[0] == members@[i as int]);
                    }
                    return Some(&members[i].1);
                }
                i += 1;
            }
            proof {
                lemma_lookup_skip(members@, key@, i as int);
            }
            None
        },
        _ => None,
    }
}

/// The member names of `v` when it is an object.
pub fn object_key_list(v: Option<&JsonValue>) -> (r: Vec<String>)
    ensures
        texts(r@) == object_keys(
            match v {
                Some(x) => Some(*x),
                None => None,
            },
        ),
{
    let mut r: Vec<String> = Vec::new();
    match v {
        Some(JsonValue::Object(members)) => {
            let mut i: usize = 0;
            while i < members.len()
                invariant
                    i <= members@.len(),
                    r@.len() == i,
                    texts(r@) == members@.take(i as int).map_values(
                        |m: (String, JsonValue)| m.0@,
                    ),
                decreases members@.len() - i,
            {
                let ghost prev = r@;
                r.push(members[i].0.clone());
                proof {
                    assert(r@ == prev.push(members@[i as int].0));
                    let a = texts(r@);
                    let b = members@.take(i + 1).map_values(|m: (String, JsonValue)| m.0@);
                    assert forall|j: int| 0 <= j < a.len() implies a[j] == b[j] by {
                        if j < i {
                            assert(texts(prev)[j] == members@.take(i as int).map_values(
                                |m: (String, JsonValue)| m.0@,
                            )[j]);
                        }
                    }
                    assert(a =~= b);
                }
                i += 1;
            }
            assert(members@.take(i as int) =~= members@);
        },
        _ => {
            assert(texts(r@) =~= Seq::<Seq<char>>::empty());
        },
    }
    r
}

/// The string items of `v` when it is an array.
pub fn array_strings(v: &JsonValue) -> (r: Vec<String>)
    ensures
        texts(r@) == match *v {
            JsonValue::Array(items) => string_items(items@),
            _ => Seq::empty(),
        },
{
    let mut r: Vec<String> = Vec::new();
    match v {
        JsonValue::Array(items) => {
            let mut i: usize = 0;
            while i < items.len()
                invariant
                    i <= items@.len(),
                    texts(r@) == string_items(items@.take(i as int)),
                decreases items@.len() - i,
            {
                proof {
                    assert(items@.take(i + 1).drop_last() =~= items@.take(i as int));
                }
                match &items[i] {
                    JsonValue::Str(s) => {
                        r.push(s.clone());
                    },
                    _ => {},
                }
                i += 1;
                assert(texts(r@) =~= string_items(items@.take(i as int)));
            }
            assert(items@.take(i as int) =~= items@);
        },
        _ => {
            assert(texts(r@) =~= Seq::<Seq<char>>::empty());
        },
    }
    r
}

/// The members of the object `v` whose value is a string.
pub fn string_member_list(v: Option<&JsonValue>) -> (r: Vec<(String, String)>)
    ensures
        text_pairs(r@) == match v {
            Some(JsonValue::Object(members)) => string_members(members@),
            _ => Seq::empty(),
        },
{
    let mut r: Vec<(String, String)> = Vec::new();
    match v {
        Some(JsonValue::Object(members)) => {
            let mut i: usize = 0;
            while i < members.len()
                invariant
                    i <= members@.len(),
                    text_pairs(r@) == string_members(members@.take(i as int)),
                decreases members@.len() - i,
            {
                proof {
                    assert(members@.take(i + 1).drop_last() =~= members@.take(i as int));
                }
                match &members[i].1 {
                    JsonValue::Str(s) => {
                        r.push((members[i].0.clone(), s.clone()));
                    },
                    _ => {},
                }
                i += 1;
                assert(text_pairs(r@) =~= string_members(members@.take(i as int)));
            }
            assert(members@.take(i as int) =~= members@);
        },
        _ => {
            assert(text_pairs(r@) =~= Seq::<(Seq<char>, Seq<char>)>::empty());
        },
    }
    r
}

// ==================== parsing ====================

#[verifier::external_type_specification]
#[verifier::external_body]
pub struct ExValue(serde_json::Value);

/// The JSON value that serde_json parses from `text`, converted to a
/// `JsonValue`; `None` when `text` is not a JSON document.
pub uninterp spec fn parsed_json(text: Seq<char>) -> Option<JsonValue>;

/// Parses a JSON document with `serde_json::from_str` into a
/// `serde_json::Value` and converts it. The contract claims only that the
/// result is a function of the text (serde_json parses deterministically and
/// stops nesting past its depth limit with an error rather than a panic);
/// which value a text gives is not stated.
#[verifier::external_body]
pub(crate) fn parse_json(text: &str) -> (r: Option<JsonValue>)
    ensures
        r == parsed_json(text@),
{
    serde_json::from_str::<Value>(text).ok().map(|v| json_from_value(&v))
}

/// Converts a `serde_json::Value` variant by variant: numbers by their
/// text, object members in the order the map hands them out. Only
/// `parse_json` uses it, and its contract covers the converted result.
#[verifier::external_body]
fn json_from_value(v: &Value) -> JsonValue {
    match v {
        Value::Null => JsonValue::Null,
        Value::Bool(b) => JsonValue::Bool(*b),
        Value::Number(n) => JsonValue::Number(n.to_string()),
        Value::String(s) => JsonValue::Str(s.clone()),
        Value::Array(items) => JsonValue::Array(items.iter().map(json_from_value).collect()),
        Value::Object(members) => JsonValue::Object(
            members.iter().map(|(k, x)| (k.clone(), json_from_value(x))).collect(),
        ),
    }
}

} // verus!
