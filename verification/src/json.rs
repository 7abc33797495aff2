//! A JSON document as the library reads and rewrites it: the same six kinds of
//! value that `serde_json::Value` has, held as plain values. Numbers keep
//! serde_json's three representations; a float is held by serde_json's text
//! of it, the shortest decimal that reads back as the same `f64`.
//! JSON text is parsed by `serde_json::from_str` and written by
//! `serde_json::to_string_pretty`; YAML text is read and written by serde_yaml.
use serde_json::Value;
use vstd::prelude::*;

verus! {

/// A JSON number: a non-negative integer, a negative integer, or a float
/// given by its shortest decimal text.
#[derive(Clone, PartialEq, Eq, Debug)]
pub enum JsonNumber {
    PosInt(u64),
    NegInt(i64),
    Float(String),
}

/// A JSON value. An object is a list of (key, value) entries; a key is looked up
/// at its first entry.
#[derive(Debug)]
pub enum JsonValue {
    Null,
    Bool(bool),
    Number(JsonNumber),
    String(String),
    Array(Vec<JsonValue>),
    Object(Vec<(String, JsonValue)>),
}

/// `serde_json::Value`, carried through the parse and its conversion.
#[verifier::external_type_specification]
#[verifier::external_body]
pub struct ExSerdeJsonValue(serde_json::Value);

/// What parsing the JSON text `text` gives: the value, or serde_json's error
/// message. It is a function of the text alone.
pub uninterp spec fn json_parse(text: Seq<char>) -> Result<JsonValue, Seq<char>>;

/// The value that the JSON text `text` denotes, `None` where it is not JSON.
pub open spec fn json_of_text(text: Seq<char>) -> Option<JsonValue> {
    match json_parse(text) {
        Ok(v) => Some(v),
        Err(_) => None,
    }
}

/// Converts a `serde_json::Value` into a `JsonValue` of the same kind, one
/// for one: the same string, the same elements and members in the same order,
/// a number as `as_u64`, else `as_i64`, else its text (`Display`). No contract
/// is claimed of it; it serves `parse_json_text` and `parse_yaml_text` alone.
#[verifier::external_body]
fn json_from_serde(v: Value) -> JsonValue {
    match v {
        Value::Null => JsonValue::Null,
        Value::Bool(b) => JsonValue::Bool(b),
        Value::Number(n) => JsonValue::Number(n.as_u64().map(JsonNumber::PosInt).or_else(|| n.as_i64().map(JsonNumber::NegInt)).unwrap_or_else(|| JsonNumber::Float(n.to_string()))),
        Value::String(s) => JsonValue::String(s),
        Value::Array(a) => JsonValue::Array(a.into_iter().map(json_from_serde).collect()),
        Value::Object(m) => JsonValue::Object(m.into_iter().map(|(k, x)| (k, json_from_serde(x))).collect()),
    }
}

/// Parses JSON text (`serde_json::from_str::<Value>`), converted to
/// a `JsonValue`; a failure gives the text of serde_json's error. The contract
/// only names the outcome (`json_parse` of the text): the JSON grammar and the
/// wording of the errors are serde_json's and are not stated here.
#[verifier::external_body]
pub(crate) fn parse_json_text(text: &str) -> (r: Result<JsonValue, String>)
    ensures
        match r {
            Ok(v) => json_parse(text@) == Ok::<JsonValue, Seq<char>>(v),
            Err(e) => json_parse(text@) == Err::<JsonValue, Seq<char>>(e@),
        },
{
    serde_json::from_str::<Value>(text).map(json_from_serde).map_err(|e| e.to_string())
}

/// Converts a `JsonValue` into a `serde_json::Value` of the same kind, one for
/// one: the same string, elements and members (into serde_json's map), an
/// integer as itself, and a float read back from its text through
/// `serde_yaml::Number` (which reads it with `str::parse::<f64>`, exactly) and
/// `serde_json::to_value`. No contract is claimed of it; it serves the
/// writers `json_pretty_text` and `yaml_text_of` alone.
#[verifier::external_body]
fn json_to_serde(v: &JsonValue) -> Value {
    match v {
        JsonValue::Null => Value::Null,
        JsonValue::Bool(b) => Value::Bool(*b),
        JsonValue::Number(JsonNumber::PosInt(u)) => Value::from(*u),
        JsonValue::Number(JsonNumber::NegInt(i)) => Value::from(*i),
        JsonValue::Number(JsonNumber::Float(t)) => serde_json::to_value(t.parse::<serde_yaml::Number>().ok()).unwrap_or_default(),
        JsonValue::String(s) => Value::String(s.clone()),
        JsonValue::Array(a) => Value::Array(a.iter().map(json_to_serde).collect()),
        JsonValue::Object(es) => Value::Object(es.iter().map(|(k, x)| (k.clone(), json_to_serde(x))).collect()),
    }
}

/// What parsing the YAML text `text` into JSON values gives: the value, or
/// serde_yaml's error message. It is a function of the text alone.
pub uninterp spec fn yaml_parse(text: Seq<char>) -> Result<JsonValue, Seq<char>>;

/// Parses YAML text into JSON values
/// (`serde_yaml::from_str::<Value>`), converted to a `JsonValue`;
/// a failure gives the text of serde_yaml's error. The contract only names
/// the outcome (`yaml_parse` of the text): the YAML grammar and the wording
/// of the errors are serde_yaml's and are not stated here.
#[verifier::external_body]
pub(crate) fn parse_yaml_text(text: &str) -> (r: Result<JsonValue, String>)
    ensures
        match r {
            Ok(v) => yaml_parse(text@) == Ok::<JsonValue, Seq<char>>(v),
            Err(e) => yaml_parse(text@) == Err::<JsonValue, Seq<char>>(e@),
        },
{
    serde_yaml::from_str::<Value>(text).map(json_from_serde).map_err(|e| e.to_string())
}

/// What writing `v` as YAML gives: the text, or serde_yaml's error message. It
/// is a function of the value alone.
pub uninterp spec fn yaml_text(v: JsonValue) -> Result<Seq<char>, Seq<char>>;

/// Writes a value as YAML (`serde_yaml::to_string` of the value converted to
/// a `serde_json::Value`); a failure gives the text of serde_yaml's error. The
/// contract only names the outcome (`yaml_text` of the value): the YAML
/// layout is serde_yaml's and is not stated here.
#[verifier::external_body]
pub(crate) fn yaml_text_of(v: &JsonValue) -> (r: Result<String, String>)
    ensures
        match r {
            Ok(s) => yaml_text(*v) == Ok::<Seq<char>, Seq<char>>(s@),
            Err(e) => yaml_text(*v) == Err::<Seq<char>, Seq<char>>(e@),
        },
{
    serde_yaml::to_string(&json_to_serde(v)).map_err(|e| e.to_string())
}

/// The pretty-printed JSON text of `v`. It is a function of the value alone.
pub uninterp spec fn json_pretty(v: JsonValue) -> Seq<char>;

/// Writes a value as pretty-printed JSON (`serde_json::to_string_pretty` of
/// the value converted to a `serde_json::Value`). Writing a `serde_json::Value`
/// cannot fail: its map keys are strings. The contract only names the text
/// (`json_pretty` of the value): the layout is serde_json's and is not stated
/// here.
#[verifier::external_body]
pub(crate) fn json_pretty_text(v: &JsonValue) -> (r: String)
    ensures
        r@ == json_pretty(*v),
{
    serde_json::to_string_pretty(&json_to_serde(v)).unwrap_or_default()
}

/// Entry `i` is the first one of `es` whose key is `key`.
pub open spec fn first_key(es: Seq<(String, JsonValue)>, key: Seq<char>, i: int) -> bool {
    &&& 0 <= i < es.len()
    &&& es[i].0@ == key
    &&& forall|j: int| 0 <= j < i ==> es[j].0@ != key
}

/// Some entry of `es` has the key `key`.
pub open spec fn has_key(es: Seq<(String, JsonValue)>, key: Seq<char>) -> bool {
    exists|i: int| first_key(es, key, i)
}

/// Index of the first entry of `es` with the key `key` (meaningful when `has_key`).
pub open spec fn key_index(es: Seq<(String, JsonValue)>, key: Seq<char>) -> int {
    choose|i: int| first_key(es, key, i)
}

/// The value stored under `key` in `es`, if any.
pub open spec fn entry_value(es: Seq<(String, JsonValue)>, key: Seq<char>) -> Option<JsonValue> {
    if has_key(es, key) {
        Some(es[key_index(es, key)].1)
    } else {
        None
    }
}

/// `v.get(key)`: the member `key` of an object, `None` for anything else.
pub open spec fn field(v: JsonValue, key: Seq<char>) -> Option<JsonValue> {
    match v {
        JsonValue::Object(es) => entry_value(es@, key),
        _ => None,
    }
}

/// `field` applied to an optional value (`and_then(|x| x.get(key))`).
pub open spec fn field_of(v: Option<JsonValue>, key: Seq<char>) -> Option<JsonValue> {
    match v {
        Some(x) => field(x, key),
        None => None,
    }
}

/// `v.as_str()`: the characters of a JSON string.
pub open spec fn str_of(v: JsonValue) -> Option<Seq<char>> {
    match v {
        JsonValue::String(s) => Some(s@),
        _ => None,
    }
}

/// `str_of` applied to an optional value.
pub open spec fn str_of_opt(v: Option<JsonValue>) -> Option<Seq<char>> {
    match v {
        Some(x) => str_of(x),
        None => None,
    }
}

/// `Number::as_i64`: the number as an `i64`, when it is an integer that fits.
pub open spec fn number_as_i64(n: JsonNumber) -> Option<i64> {
    match n {
        JsonNumber::PosInt(u) => if u <= i64::MAX {
            Some(u as i64)
        } else {
            None
        },
        JsonNumber::NegInt(i) => Some(i),
        JsonNumber::Float(_) => None,
    }
}

/// `v.as_i64()`.
pub open spec fn int_of(v: JsonValue) -> Option<i64> {
    match v {
        JsonValue::Number(n) => number_as_i64(n),
        _ => None,
    }
}

/// `int_of` applied to an optional value.
pub open spec fn int_of_opt(v: Option<JsonValue>) -> Option<i64> {
    match v {
        Some(x) => int_of(x),
        None => None,
    }
}

/// The number held by an optional value, when it is a number (`as_f64` gives
/// `Some` exactly for these).
pub open spec fn number_of_opt(v: Option<JsonValue>) -> Option<JsonNumber> {
    match v {
        Some(JsonValue::Number(n)) => Some(n),
        _ => None,
    }
}

/// The elements of an array value.
pub open spec fn array_of_opt(v: Option<JsonValue>) -> Option<Seq<JsonValue>> {
    match v {
        Some(JsonValue::Array(a)) => Some(a@),
        _ => None,
    }
}

/// The JSON number that `serde_json` makes of an `i64` (`From<i64>`).
pub open spec fn number_from_i64(i: i64) -> JsonNumber {
    if i < 0 {
        JsonNumber::NegInt(i)
    } else {
        JsonNumber::PosInt(i as u64)
    }
}

/// The JSON number of an `i64`.
pub fn json_number_from_i64(i: i64) -> (n: JsonNumber)
    ensures
        n == number_from_i64(i),
        number_as_i64(n) == Some(i),
{
    if i < 0 {
        JsonNumber::NegInt(i)
    } else {
        JsonNumber::PosInt(i as u64)
    }
}

/// Index of the first entry of `es` with key `key`, if any.
pub fn find_key(es: &Vec<(String, JsonValue)>, key: &String) -> (r: Option<usize>)
    ensures
        match r {
            Some(i) => first_key(es@, key@, i as int) && has_key(es@, key@) && key_index(es@, key@)
                == i,
            None => !has_key(es@, key@) && forall|j: int| 0 <= j < es@.len() ==> es@[j].0@ != key@,
        },
{
    let mut i: usize = 0;
    while i < es.len()
        invariant
            i <= es.len(),
            forall|j: int| 0 <= j < i ==> es@[j].0@ != key@,
        decreases es.len() - i,
    {
        if es[i].0.eq(key) {
            assert(first_key(es@, key@, i as int));
            proof {
                let k = key_index(es@, key@);
                assert(first_key(es@, key@, k));
                if k < i {
                    assert(es@[k].0@ != key@);
                }
                if k > i {
                    assert(es@[i as int].0@ != key@);
                }
            }
            return Some(i);
        }
        i = i + 1;
    }
    None
}

impl JsonValue {
    /// The member `key` of an object (`Value::get`).
    pub fn get(&self, key: &String) -> (r: Option<&JsonValue>)
        ensures
            match r {
                Some(x) => field(*self, key@) == Some(*x),
                None => field(*self, key@) is None,
            },
    {
        match self {
            JsonValue::Object(es) => match find_key(es, key) {
                Some(i) => Some(&es[i].1),
                None => None,
            },
            _ => None,
        }
    }

    /// The characters of a string value (`Value::as_str`).
    pub fn as_str(&self) -> (r: Option<&String>)
        ensures
            match r {
                Some(s) => str_of(*self) == Some(s@),
                None => str_of(*self) is None,
            },
    {
        match self {
            JsonValue::String(s) => Some(s),
            _ => None,
        }
    }

    /// The value as an `i64` (`Value::as_i64`).
    pub fn as_i64(&self) -> (r: Option<i64>)
        ensures
            r == int_of(*self),
    {
        match self {
            JsonValue::Number(n) => match n {
                JsonNumber::PosInt(u) => if *u <= 0x7fff_ffff_ffff_ffffu64 {
                    Some(*u as i64)
                } else {
                    None
                },
                JsonNumber::NegInt(i) => Some(*i),
                JsonNumber::Float(_) => None,
            },
            _ => None,
        }
    }
}

/// The member `key` of `v`, as a string.
pub fn get_str<'a>(v: &'a JsonValue, key: &String) -> (r: Option<&'a String>)
    ensures
        match r {
            Some(s) => str_of_opt(field(*v, key@)) == Some(s@),
            None => str_of_opt(field(*v, key@)) is None,
        },
{
    match v.get(key) {
        Some(x) => x.as_str(),
        None => None,
    }
}

/// A copy of a number.
pub fn clone_number(n: &JsonNumber) -> (r: JsonNumber)
    ensures
        r == *n,
{
    match n {
        JsonNumber::PosInt(u) => JsonNumber::PosInt(*u),
        JsonNumber::NegInt(i) => JsonNumber::NegInt(*i),
        JsonNumber::Float(t) => JsonNumber::Float(t.clone()),
    }
}

/// The member `key` of `v`, as a number.
pub fn get_number(v: &JsonValue, key: &String) -> (r: Option<JsonNumber>)
    ensures
        r == number_of_opt(field(*v, key@)),
{
    match v.get(key) {
        Some(x) => match x {
            JsonValue::Number(n) => Some(clone_number(n)),
            _ => None,
        },
        None => None,
    }
}

/// The value stored under `key` is that of the first entry with that key.
pub proof fn lemma_entry_at(es: Seq<(String, JsonValue)>, key: Seq<char>, i: int)
    requires
        0 <= i < es.len(),
        es[i].0@ == key,
        forall|j: int| 0 <= j < i ==> es[j].0@ != key,
    ensures
        entry_value(es, key) == Some(es[i].1),
        has_key(es, key),
        key_index(es, key) == i,
{
    assert(first_key(es, key, i));
    let k = key_index(es, key);
    assert(first_key(es, key, k));
    if k < i {
        assert(es[k].0@ != key);
    }
    if k > i {
        assert(es[i].0@ != key);
    }
}

/// A key that no entry has is not found.
pub proof fn lemma_entry_absent(es: Seq<(String, JsonValue)>, key: Seq<char>)
    requires
        forall|j: int| 0 <= j < es.len() ==> es[j].0@ != key,
    ensures
        entry_value(es, key) is None,
        !has_key(es, key),
{
}

/// An `i64` written as a JSON number reads back as the same `i64`.
pub proof fn lemma_number_from_i64(i: i64)
    ensures
        number_as_i64(number_from_i64(i)) == Some(i),
{
}

} // verus!
