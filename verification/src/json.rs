use vstd::prelude::*;

use crate::error::Error;
use crate::strutil::str_eq;

verus! {

/// A JSON document as plain data. Object members carry unique keys, in
/// the order the parser's map enumerates them (sorted by key); a number is
/// kept only in its unsigned-integer reading, since no consumed field
/// holds any other number.
pub enum JsonValue {
    Null,
    Bool(bool),
    UInt(u64),
    OtherNum,
    Str(String),
    Arr(Vec<JsonValue>),
    Obj(Vec<(String, JsonValue)>),
}

/// serde_json's document type, opaque to the verifier; it is only carried
/// from the parser into the reduction below.
#[verifier::external_type_specification]
#[verifier::external_body]
pub struct ExJsonDocValue(serde_json::Value);

/// The tree that a JSON byte stream parses to, or `None` when the bytes
/// are not a JSON document.
pub uninterp spec fn json_tree_of(data: Seq<u8>) -> Option<JsonValue>;

/// Relies on serde_json::from_slice for serde_json::Value: parses a JSON
/// document; the result is a function of the bytes alone.
#[verifier::external_body]
pub(crate) fn parse_json(data: &[u8]) -> (r: Result<JsonValue, Error>)
    ensures
        match r {
            Ok(v) => json_tree_of(data@) == Some(v),
            Err(e) => json_tree_of(data@) is None && e is SerdeJson,
        },
{
    match serde_json::from_slice::<serde_json::Value>(data) {
        Ok(v) => Ok(json_node_of(&v)),
        Err(e) => Err(Error::SerdeJson(e.to_string())),
    }
}

/// Relies on the serde_json::Value variants: each is carried over one for
/// one; a number keeps only its u64 reading.
#[verifier::external_body]
fn json_node_of(v: &serde_json::Value) -> JsonValue {
    match v {
        serde_json::Value::Null => JsonValue::Null,
        serde_json::Value::Bool(b) => JsonValue::Bool(*b),
        serde_json::Value::Number(n) => match n.as_u64() {
            Some(u) => JsonValue::UInt(u),
            None => JsonValue::OtherNum,
        },
        serde_json::Value::String(s) => JsonValue::Str(s.clone()),
        serde_json::Value::Array(a) => JsonValue::Arr(a.iter().map(json_node_of).collect()),
        serde_json::Value::Object(m) => JsonValue::Obj(
            m.iter().map(|(k, w)| (k.clone(), json_node_of(w))).collect(),
        ),
    }
}

/// The value of the first member named `key`, if any.
pub open spec fn json_get(ms: Seq<(String, JsonValue)>, key: Seq<char>) -> Option<JsonValue>
    decreases ms.len(),
{
    if ms.len() == 0 {
        None
    } else if ms.first().0@ == key {
        Some(ms.first().1)
    } else {
        json_get(ms.drop_first(), key)
    }
}

/// A member value found by `json_get` stands somewhere in the member list.
pub proof fn lemma_json_get_member(ms: Seq<(String, JsonValue)>, key: Seq<char>)
    ensures
        json_get(ms, key) matches Some(x) ==> exists|j: int|
            0 <= j < ms.len() && #[trigger] ms[j].1 == x,
    decreases ms.len(),
{
    if ms.len() > 0 {
        if ms.first().0@ == key {
            assert(ms[0].1 == json_get(ms, key).unwrap());
        } else {
            lemma_json_get_member(ms.drop_first(), key);
            match json_get(ms, key) {
                Some(x) => {
                    let j = choose|j: int|
                        0 <= j < ms.drop_first().len() && #[trigger] ms.drop_first()[j].1 == x;
                    assert(ms[j + 1].1 == x);
                },
                None => {},
            }
        }
    }
}

/// A scan that has passed `i` members without a key match has not changed
/// what `json_get` will find.
proof fn lemma_json_get_scan(ms: Seq<(String, JsonValue)>, key: Seq<char>, i: int)
    requires
        0 <= i <= ms.len(),
        forall|j: int| 0 <= j < i ==> ms[j].0@ != key,
    ensures
        json_get(ms, key) == json_get(ms.skip(i), key),
    decreases i,
{
    if i == 0 {
        assert(ms.skip(0) =~= ms);
    } else {
        assert(ms.first().0@ != key);
        assert(forall|j: int|
            0 <= j < i - 1 ==> #[trigger] ms.drop_first()[j].0@ == ms[j + 1].0@);
        lemma_json_get_scan(ms.drop_first(), key, i - 1);
        assert(ms.drop_first().skip(i - 1) =~= ms.skip(i));
    }
}

/// Finds the first member named `key` in an object's member list.
pub fn obj_get<'a>(ms: &'a Vec<(String, JsonValue)>, key: &str) -> (r: Option<&'a JsonValue>)
    ensures
        match r {
            Some(x) => json_get(ms@, key@) == Some(*x),
            None => json_get(ms@, key@) is None,
        },
{
    let n = ms.len();
    let mut i: usize = 0;
    while i < n
        invariant
            n == ms@.len(),
            i <= n,
            forall|j: int| 0 <= j < i ==> ms@[j].0@ != key@,
        decreases n - i,
    {
        if str_eq(ms[i].0.as_str(), key) {
            proof {
                lemma_json_get_scan(ms@, key@, i as int);
                assert(ms@.skip(i as int).first() == ms@[i as int]);
                assert(ms@.skip(i as int).len() > 0);
            }
            return Some(&ms[i].1);
        }
        i = i + 1;
    }
    proof {
        lemma_json_get_scan(ms@, key@, n as int);
        assert(ms@.skip(n as int).len() == 0);
    }
    None
}

} // verus!
