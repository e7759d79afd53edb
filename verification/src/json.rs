//! A library-owned model of JSON documents, with parsing and printing done by `serde_json`.

use vstd::prelude::*;

verus! {

#[verifier::external_type_specification]
#[verifier::external_body]
pub struct ExJsonNumber(serde_json::Number);

#[verifier::external_type_specification]
#[verifier::external_body]
pub struct ExJsonDocument(serde_json::Value);

#[verifier::external_type_specification]
#[verifier::external_body]
pub struct ExJsonError(serde_json::Error);

/// A JSON value. Objects list their members in order; a parsed document gives them sorted by
/// key, and an object built here keeps the order it was built in.
#[derive(Debug)]
pub enum JsonValue {
    Null,
    Bool(bool),
    Number(serde_json::Number),
    String(String),
    Array(Vec<JsonValue>),
    Object(Vec<(String, JsonValue)>),
}

/// The mathematical content of a [`JsonValue`].
pub enum JsonData {
    Null,
    Bool(bool),
    Number(serde_json::Number),
    Str(Seq<char>),
    Array(Seq<JsonData>),
    Object(Seq<(Seq<char>, JsonData)>),
}

pub open spec fn json_data(v: JsonValue) -> JsonData
    decreases v,
{
    match v {
        JsonValue::Null => JsonData::Null,
        JsonValue::Bool(b) => JsonData::Bool(b),
        JsonValue::Number(n) => JsonData::Number(n),
        JsonValue::String(s) => JsonData::Str(s@),
        JsonValue::Array(a) => JsonData::Array(json_data_seq(a@)),
        JsonValue::Object(o) => JsonData::Object(json_entries(o@)),
    }
}

pub open spec fn json_data_seq(s: Seq<JsonValue>) -> Seq<JsonData>
    decreases s,
{
    if s.len() == 0 {
        Seq::empty()
    } else {
        json_data_seq(s.subrange(0, s.len() - 1)).push(json_data(s[s.len() - 1]))
    }
}

pub open spec fn json_entries(s: Seq<(String, JsonValue)>) -> Seq<(Seq<char>, JsonData)>
    decreases s,
{
    if s.len() == 0 {
        Seq::empty()
    } else {
        json_entries(s.subrange(0, s.len() - 1)).push((s[s.len() - 1].0@, json_data(s[s.len() - 1].1)))
    }
}

impl View for JsonValue {
    type V = JsonData;

    open spec fn view(&self) -> JsonData {
        json_data(*self)
    }
}

/// `json_data_seq` keeps length and maps each element.
pub proof fn lemma_json_data_seq(s: Seq<JsonValue>)
    ensures
        json_data_seq(s).len() == s.len(),
        forall|i: int| 0 <= i < s.len() ==> #[trigger] json_data_seq(s)[i] == json_data(s[i]),
    decreases s.len(),
{
    if s.len() > 0 {
        lemma_json_data_seq(s.subrange(0, s.len() - 1));
    }
}

/// `json_entries` keeps length and maps each member.
pub proof fn lemma_json_entries(s: Seq<(String, JsonValue)>)
    ensures
        json_entries(s).len() == s.len(),
        forall|i: int| 0 <= i < s.len() ==> #[trigger] json_entries(s)[i] == (s[i].0@, json_data(s[i].1)),
    decreases s.len(),
{
    if s.len() > 0 {
        lemma_json_entries(s.subrange(0, s.len() - 1));
    }
}

/// The value of the first member named `key`, if any.
pub open spec fn entries_lookup(entries: Seq<(Seq<char>, JsonData)>, key: Seq<char>) -> Option<JsonData>
    decreases entries.len(),
{
    if entries.len() == 0 {
        None
    } else if entries[0].0 == key {
        Some(entries[0].1)
    } else {
        entries_lookup(entries.subrange(1, entries.len() as int), key)
    }
}

/// `value[key]`: the member named `key` of an object, or `Null` when there is none or
/// the value is not an object.
pub open spec fn member(d: JsonData, key: Seq<char>) -> JsonData {
    match d {
        JsonData::Object(entries) => match entries_lookup(entries, key) {
            Some(v) => v,
            None => JsonData::Null,
        },
        _ => JsonData::Null,
    }
}

/// Skipping members whose name differs from `key` does not change the lookup.
pub proof fn lemma_lookup_skip(entries: Seq<(Seq<char>, JsonData)>, key: Seq<char>, i: int)
    requires
        0 <= i <= entries.len(),
        forall|j: int| 0 <= j < i ==> entries[j].0 != key,
    ensures
        entries_lookup(entries, key) == entries_lookup(entries.subrange(i, entries.len() as int), key),
    decreases i,
{
    if i > 0 {
        let rest = entries.subrange(1, entries.len() as int);
        lemma_lookup_skip(rest, key, i - 1);
        assert(rest.subrange(i - 1, rest.len() as int) =~= entries.subrange(i, entries.len() as int));
    } else {
        assert(entries.subrange(0, entries.len() as int) =~= entries);
    }
}

/// The result of parsing a text as a JSON document with `serde_json`, when it is one.
pub uninterp spec fn json_parse(text: Seq<char>) -> Option<JsonData>;

/// The pretty-printed text (two-space indentation) that `serde_json` produces for a value.
pub uninterp spec fn json_pretty_text(d: JsonData) -> Seq<char>;

/// The compact text that `serde_json` produces for a value.
pub uninterp spec fn json_compact_text(d: JsonData) -> Seq<char>;

/// The JSON number that `serde_json` makes of an integer.
pub uninterp spec fn json_int(i: i64) -> serde_json::Number;

impl JsonValue {
    /// Whether this is `null`.
    pub fn is_null(&self) -> (r: bool)
        ensures
            r == (self@ is Null),
    {
        match self {
            JsonValue::Null => true,
            _ => false,
        }
    }

    /// The text of a string value.
    pub fn as_str(&self) -> (r: Option<&str>)
        ensures
            r is Some <==> self@ is Str,
            r matches Some(s) ==> self@ == JsonData::Str(s@),
    {
        match self {
            JsonValue::String(s) => Some(s.as_str()),
            _ => None,
        }
    }

    /// `self[key]`: the member named `key`; `None` stands for the `Null` that indexing gives
    /// when there is no such member or the value is not an object.
    pub fn member(&self, key: &str) -> (r: Option<&JsonValue>)
        ensures
            r matches Some(v) ==> member(self@, key@) == v@,
            r is None ==> member(self@, key@) == JsonData::Null,
    {
        match self {
            JsonValue::Object(entries) => {
                proof {
                    lemma_json_entries(entries@);
                }
                let ghost es = json_entries(entries@);
                let mut i: usize = 0;
                while i < entries.len()
                    invariant
                        0 <= i <= entries.len(),
                        es == json_entries(entries@),
                        es.len() == entries.len(),
                        forall|j: int| 0 <= j < entries.len() ==> #[trigger] es[j] == (entries@[j].0@, json_data(entries@[j].1)),
                        forall|j: int| 0 <= j < i ==> es[j].0 != key@,
                        self@ == JsonData::Object(es),
                    decreases entries.len() - i,
                {
                    if crate::text::str_eq(entries[i].0.as_str(), key) {
                        proof {
                            lemma_lookup_skip(es, key@, i as int);
                        }
                        return Some(&entries[i].1);
                    }
                    i = i + 1;
                }
                proof {
                    lemma_lookup_skip(es, key@, i as int);
                }
                None
            },
            _ => None,
        }
    }
}

/// Moves a `serde_json::Value` into the library's representation, variant by variant.
#[verifier::external_body]
fn from_serde(v: serde_json::Value) -> JsonValue {
    match v {
        serde_json::Value::Null => JsonValue::Null,
        serde_json::Value::Bool(b) => JsonValue::Bool(b),
        serde_json::Value::Number(n) => JsonValue::Number(n),
        serde_json::Value::String(s) => JsonValue::String(s),
        serde_json::Value::Array(a) => JsonValue::Array(a.into_iter().map(from_serde).collect()),
        serde_json::Value::Object(o) => JsonValue::Object(o.into_iter().map(|(k, x)| (k, from_serde(x))).collect()),
    }
}

/// Copies the library's representation into a `serde_json::Value`, variant by variant.
#[verifier::external_body]
fn to_serde(v: &JsonValue) -> serde_json::Value {
    match v {
        JsonValue::Null => serde_json::Value::Null,
        JsonValue::Bool(b) => serde_json::Value::Bool(*b),
        JsonValue::Number(n) => serde_json::Value::Number(n.clone()),
        JsonValue::String(s) => serde_json::Value::String(s.clone()),
        JsonValue::Array(a) => serde_json::Value::Array(a.iter().map(to_serde).collect()),
        JsonValue::Object(o) => serde_json::Value::Object(o.iter().map(|(k, x)| (k.clone(), to_serde(x))).collect()),
    }
}

/// `serde_json::from_str::<serde_json::Value>`: parses `text`; the result is the value the
/// text denotes, members of objects ordered by key, or the parser's error.
#[verifier::external_body]
pub(crate) fn serde_parse(text: &str) -> (r: Result<JsonValue, serde_json::Error>)
    ensures
        r is Ok <==> json_parse(text@) is Some,
        r matches Ok(v) ==> json_parse(text@) == Some(v@),
{
    serde_json::from_str::<serde_json::Value>(text).map(from_serde)
}

/// `serde_json::to_string_pretty` on the `serde_json::Value` holding the same data. The
/// serializer cannot fail on such a value (all keys are strings and the output is a `Vec`), so
/// the error arm is never taken.
#[verifier::external_body]
pub(crate) fn serde_pretty(v: &JsonValue) -> (r: String)
    ensures
        r@ == json_pretty_text(v@),
{
    match serde_json::to_string_pretty(&to_serde(v)) {
        Ok(s) => s,
        Err(_) => String::new(),
    }
}

/// `serde_json::Value::to_string` (compact form) on the value holding the same data.
#[verifier::external_body]
pub(crate) fn serde_compact(v: &JsonValue) -> (r: String)
    ensures
        r@ == json_compact_text(v@),
{
    to_serde(v).to_string()
}

/// `serde_json::Number::from(i64)`.
#[verifier::external_body]
pub(crate) fn serde_int(i: i64) -> (r: serde_json::Number)
    ensures
        r == json_int(i),
{
    serde_json::Number::from(i)
}

/// `serde_json::Error`'s `Display` text. Nothing is stated of it.
#[verifier::external_body]
pub(crate) fn serde_error_text(e: &serde_json::Error) -> String {
    e.to_string()
}

} // verus!
