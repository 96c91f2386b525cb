//! JSON documents, read by `serde_json`. A document is seen one level at a time: the values inside
//! an array or an object are kept as their own JSON text, to be read in turn.
use vstd::prelude::*;

verus! {

/// The top level of a JSON document
#[derive(Debug, PartialEq)]
pub enum Json {
    Null,
    Bool(bool),
    /// a number, with its value when it is a non-negative integer that fits in 64 bits
    Number(Option<u64>),
    Str(String),
    /// the JSON text of each element
    Array(Vec<String>),
    /// each key with the JSON text of its value
    Object(Vec<(String, String)>),
}

/// The value of the top level of a JSON document
pub enum JsonV {
    Null,
    Bool(bool),
    Number(Option<u64>),
    Str(Seq<char>),
    Array(Seq<Seq<char>>),
    Object(Seq<(Seq<char>, Seq<char>)>),
}

impl View for Json {
    type V = JsonV;

    open spec fn view(&self) -> JsonV {
        match self {
            Json::Null => JsonV::Null,
            Json::Bool(b) => JsonV::Bool(*b),
            Json::Number(n) => JsonV::Number(*n),
            Json::Str(s) => JsonV::Str(s@),
            Json::Array(a) => JsonV::Array(a@.map_values(|s: String| s@)),
            Json::Object(o) => JsonV::Object(
                o@.map_values(|e: (String, String)| (e.0@, e.1@)),
            ),
        }
    }
}

/// What `serde_json` reads from a JSON text: the top level of the document, or the message of the
/// error it reports
pub uninterp spec fn json_document(text: Seq<char>) -> Result<JsonV, Seq<char>>;

/// Reads a JSON document.
///
/// Calls `serde_json::from_str` for a `serde_json::Value`. The elements of an array and the values
/// of an object are written back as JSON text with `Value`'s `Display` (`to_string`), in the
/// order the `Value` holds them; a number keeps its value from `Number::as_u64`; an error becomes
/// its message. The result is named `json_document(text)`: a function of the text alone. Nothing
/// more is claimed of it.
#[verifier::external_body]
pub fn parse_json(text: &str) -> (r: Result<Json, String>)
    ensures
        match r {
            Ok(j) => json_document(text@) == Ok::<JsonV, Seq<char>>(j@),
            Err(m) => json_document(text@) == Err::<JsonV, Seq<char>>(m@),
        },
{
    match serde_json::from_str::<serde_json::Value>(text) {
        Ok(v) => Ok(match v {
            serde_json::Value::Null => Json::Null,
            serde_json::Value::Bool(b) => Json::Bool(b),
            serde_json::Value::Number(n) => Json::Number(n.as_u64()),
            serde_json::Value::String(s) => Json::Str(s),
            serde_json::Value::Array(a) => Json::Array(a.iter().map(|x| x.to_string()).collect()),
            serde_json::Value::Object(o) => Json::Object(
                o.iter().map(|(k, x)| (k.clone(), x.to_string())).collect(),
            ),
        }),
        Err(e) => Err(e.to_string()),
    }
}

/// The JSON text stored under a key of an object; the first one when the key repeats
pub open spec fn field(fields: Seq<(Seq<char>, Seq<char>)>, key: Seq<char>) -> Option<Seq<char>>
    decreases fields.len(),
{
    if fields.len() == 0 {
        None
    } else if fields[0].0 == key {
        Some(fields[0].1)
    } else {
        field(fields.skip(1), key)
    }
}

/// Finds the JSON text stored under a key of an object
pub fn get_field(fields: &Vec<(String, String)>, key: &str) -> (r: Option<String>)
    ensures
        match r {
            Some(t) => field(fields@.map_values(|e: (String, String)| (e.0@, e.1@)), key@)
                == Some(t@),
            None => field(fields@.map_values(|e: (String, String)| (e.0@, e.1@)), key@) is None,
        },
{
    let ghost all = fields@.map_values(|e: (String, String)| (e.0@, e.1@));
    let key_s = key.to_owned();
    let mut i: usize = 0;
    assert(all.skip(0) =~= all);
    while i < fields.len()
        invariant
            i <= fields.len(),
            all == fields@.map_values(|e: (String, String)| (e.0@, e.1@)),
            key_s@ == key@,
            field(all.skip(i as int), key@) == field(all, key@),
        decreases fields.len() - i,
    {
        assert(all.skip(i as int)[0] == (fields@[i as int].0@, fields@[i as int].1@));
        assert(all.skip(i as int).skip(1) =~= all.skip(i + 1));
        if fields[i].0 == key_s {
            return Some(fields[i].1.clone());
        }
        i += 1;
    }
    None
}

} // verus!
