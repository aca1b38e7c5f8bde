//! A plain model of JSON documents, read by the collectors' logic.
use vstd::prelude::*;

verus! {

/// A JSON number, as the collectors read it: a non-negative integer that fits
/// in `u64`, a negative integer that fits in `i64`, or any other number,
/// kept as the text serde_json writes for it.
#[derive(Debug)]
pub enum JsonNumber {
    UInt(u64),
    NegInt(i64),
    Float(String),
}

/// A JSON document. Object members come in the order the parser hands them
/// over (serde_json's default map sorts them by key); their keys are distinct.
#[derive(Debug)]
pub enum JsonValue {
    Null,
    Bool(bool),
    Number(JsonNumber),
    Str(String),
    Array(Vec<JsonValue>),
    Object(Vec<(String, JsonValue)>),
}

/// The value of the first member named `key`.
pub open spec fn lookup(members: Seq<(String, JsonValue)>, key: Seq<char>) -> Option<JsonValue>
    decreases members.len(),
{
    if members.len() == 0 {
        None
    } else if members[0].0@ == key {
        Some(members[0].1)
    } else {
        lookup(members.drop_first(), key)
    }
}

impl JsonValue {
    /// `get(key)`: the member `key` of an object; nothing for any other value.
    pub open spec fn spec_get(self, key: Seq<char>) -> Option<JsonValue> {
        match self {
            JsonValue::Object(members) => lookup(members@, key),
            _ => None,
        }
    }

    /// `as_u64()`: the number, when it is a non-negative integer.
    pub open spec fn spec_as_u64(self) -> Option<u64> {
        match self {
            JsonValue::Number(JsonNumber::UInt(n)) => Some(n),
            _ => None,
        }
    }

    /// `as_str()`: the text, when the value is a string.
    pub open spec fn spec_as_str(self) -> Option<Seq<char>> {
        match self {
            JsonValue::Str(s) => Some(s@),
            _ => None,
        }
    }

    /// The member `key` read as a non-negative integer.
    pub open spec fn spec_u64_at(self, key: Seq<char>) -> Option<u64> {
        match self.spec_get(key) {
            Some(v) => v.spec_as_u64(),
            None => None,
        }
    }

    /// The member `key` read as a string.
    pub open spec fn spec_str_at(self, key: Seq<char>) -> Option<Seq<char>> {
        match self.spec_get(key) {
            Some(v) => v.spec_as_str(),
            None => None,
        }
    }

    /// The member of an object with the given key (`serde_json::Value::get`).
    pub fn get(&self, key: &str) -> (r: Option<&JsonValue>)
        ensures
            match r {
                Some(v) => self.spec_get(key@) == Some(*v),
                None => self.spec_get(key@) is None,
            },
    {
        match self {
            JsonValue::Object(members) => {
                let k = key.to_owned();
                let mut i: usize = 0;
                assert(members@.skip(0) =~= members@);
                while i < members.len()
                    invariant
                        0 <= i <= members@.len(),
                        k@ == key@,
                        self.spec_get(key@) == lookup(members@, key@),
                        lookup(members@, key@) == lookup(members@.skip(i as int), key@),
                    decreases members@.len() - i,
                {
                    assert(members@.skip(i as int).drop_first() =~= members@.skip(i + 1));
                    assert(members@.skip(i as int)[0] == members@[i as int]);
                    let same = members[i].0.eq(&k);
                    if same {
                        assert(members@[i as int].0@ == key@);
                        return Some(&members[i].1);
                    }
                    i = i + 1;
                }
                None
            },
            _ => None,
        }
    }

    /// The number, when it is a non-negative integer (`as_u64`).
    pub fn as_u64(&self) -> (r: Option<u64>)
        ensures
            r == self.spec_as_u64(),
    {
        match self {
            JsonValue::Number(JsonNumber::UInt(n)) => Some(*n),
            _ => None,
        }
    }

    /// The text of a string value (`as_str`).
    pub fn as_str(&self) -> (r: Option<&str>)
        ensures
            match r {
                Some(s) => self.spec_as_str() == Some(s@),
                None => self.spec_as_str() is None,
            },
    {
        match self {
            JsonValue::Str(s) => Some(s.as_str()),
            _ => None,
        }
    }

    /// The member `key` read as a non-negative integer:
    /// `get(key).and_then(|v| v.as_u64())`.
    pub fn u64_at(&self, key: &str) -> (r: Option<u64>)
        ensures
            r == self.spec_u64_at(key@),
    {
        match self.get(key) {
            Some(v) => v.as_u64(),
            None => None,
        }
    }
}

#[verifier::external_type_specification]
#[verifier::external_body]
pub struct ExSerdeJsonValue(serde_json::Value);

/// What `serde_json::from_str::<serde_json::Value>` reads from a text,
/// seen through `JsonValue`: `None` where serde_json reports an error.
pub uninterp spec fn json_parse(text: Seq<char>) -> Option<JsonValue>;

/// Calls `serde_json::from_str::<serde_json::Value>` and hands the document
/// over as a `JsonValue`. Trusted: the result is whatever serde_json parses,
/// named `json_parse` of the text; nothing else is claimed.
#[verifier::external_body]
pub(crate) fn parse_json(text: &str) -> (r: Option<JsonValue>)
    ensures
        r == json_parse(text@),
{
    serde_json::from_str::<serde_json::Value>(text).ok().map(from_serde)
}

/// A JSON document read from text; `None` where the text is not JSON.
pub fn parse_document(text: &str) -> (r: Option<JsonValue>)
    ensures
        r == json_parse(text@),
{
    parse_json(text)
}

/// What `serde_json::from_slice::<serde_json::Value>` reads from bytes, seen
/// through `JsonValue`: `None` where serde_json reports an error.
pub uninterp spec fn json_parse_bytes(bytes: Seq<u8>) -> Option<JsonValue>;

/// Calls `serde_json::from_slice::<serde_json::Value>` and hands the document
/// over as a `JsonValue`. Trusted: the result is whatever serde_json parses,
/// named `json_parse_bytes` of the bytes; nothing else is claimed.
#[verifier::external_body]
pub(crate) fn parse_json_bytes(bytes: &[u8]) -> (r: Option<JsonValue>)
    ensures
        r == json_parse_bytes(bytes@),
{
    serde_json::from_slice::<serde_json::Value>(bytes).ok().map(from_serde)
}

/// The conversion half of `parse_json` and `parse_json_bytes`: moves a `serde_json::Value` into a
/// `JsonValue` variant by variant (numbers by `as_u64`, then `as_i64`).
#[verifier::external_body]
fn from_serde(v: serde_json::Value) -> JsonValue {
    match v {
        serde_json::Value::Null => JsonValue::Null,
        serde_json::Value::Bool(b) => JsonValue::Bool(b),
        serde_json::Value::Number(n) => JsonValue::Number(
            match (n.as_u64(), n.as_i64()) {
                (Some(u), _) => JsonNumber::UInt(u),
                (None, Some(i)) => JsonNumber::NegInt(i),
                (None, None) => JsonNumber::Float(n.to_string()),
            },
        ),
        serde_json::Value::String(s) => JsonValue::Str(s),
        serde_json::Value::Array(a) => JsonValue::Array(a.into_iter().map(from_serde).collect()),
        serde_json::Value::Object(m) => JsonValue::Object(m.into_iter().map(|(k, v)| (k, from_serde(v))).collect()),
    }
}

} // verus!
