//! The parts of a JSON document that routing decisions read, and the
//! decisions themselves: where a request names its project directory, and
//! what a client's session file says about a session.

use vstd::prelude::*;
use crate::text::{opt_string, opt_text, same_text};

verus! {

/// A JSON number, as far as the decisions here tell numbers apart.
#[derive(Clone, Copy, Debug)]
pub enum JsonNumber {
    /// An integer at or above zero.
    PosInt(u64),
    /// An integer below zero.
    NegInt(i64),
    /// A number with a fraction or an exponent; its value is never read.
    Float,
}

/// A JSON value. An object holds its members in order, each key once.
#[derive(Debug)]
pub enum JsonValue {
    Null,
    Bool(bool),
    Number(JsonNumber),
    Str(String),
    Array(Vec<JsonValue>),
    Object(Vec<(String, JsonValue)>),
}

/// The value of the first member of `entries` named `key`.
pub open spec fn lookup_member(entries: Seq<(String, JsonValue)>, key: Seq<char>) -> Option<JsonValue>
    decreases entries.len(),
{
    if entries.len() == 0 {
        None
    } else if entries[0].0@ == key {
        Some(entries[0].1)
    } else {
        lookup_member(entries.drop_first(), key)
    }
}

#[verifier::external_type_specification]
#[verifier::external_body]
pub struct ExJsonDocument(serde_json::Value);

/// What `serde_json` parses `text` into, or `None` when it is not JSON.
pub uninterp spec fn parsed_json(text: Seq<char>) -> Option<JsonValue>;

/// Converts a `serde_json::Value` into a [`JsonValue`], variant for
/// variant; a number becomes `PosInt` when `as_u64` gives it, `NegInt` when
/// `as_i64` does, and `Float` otherwise. Nothing is claimed of it: it only
/// serves [`parse_json`].
#[verifier::external_body]
fn json_model(v: &serde_json::Value) -> JsonValue {
    match v {
        serde_json::Value::Null => JsonValue::Null,
        serde_json::Value::Bool(b) => JsonValue::Bool(*b),
        serde_json::Value::Number(n) => JsonValue::Number(
            n.as_u64().map(JsonNumber::PosInt).or(n.as_i64().map(JsonNumber::NegInt)).unwrap_or(JsonNumber::Float),
        ),
        serde_json::Value::String(s) => JsonValue::Str(s.clone()),
        serde_json::Value::Array(a) => JsonValue::Array(a.iter().map(json_model).collect()),
        serde_json::Value::Object(o) => JsonValue::Object(o.iter().map(|(k, x)| (k.clone(), json_model(x))).collect()),
    }
}

/// Parses `text` with `serde_json::from_str::<serde_json::Value>`. The
/// contract claims only that the result is a function of the text alone
/// (`parsed_json`); which value a text parses into is left to `serde_json`.
#[verifier::external_body]
pub(crate) fn parse_json(text: &str) -> (r: Option<JsonValue>)
    ensures
        r == parsed_json(text@),
{
    serde_json::from_str::<serde_json::Value>(text).ok().map(|v| json_model(&v))
}

/// The member `key` of `v`, when `v` is an object that has one.
pub open spec fn json_get(v: JsonValue, key: Seq<char>) -> Option<JsonValue> {
    match v {
        JsonValue::Object(entries) => lookup_member(entries@, key),
        _ => None,
    }
}

/// The text of `v`, when `v` is a string.
pub open spec fn json_str(v: Option<JsonValue>) -> Option<Seq<char>> {
    match v {
        Some(JsonValue::Str(s)) => Some(s@),
        _ => None,
    }
}

/// The value of `v`, when `v` is an integer that fits in a `u64`.
pub open spec fn json_u64(v: Option<JsonValue>) -> Option<u64> {
    match v {
        Some(JsonValue::Number(JsonNumber::PosInt(n))) => Some(n),
        _ => None,
    }
}

impl JsonValue {
    /// The member `key` of this value, when it is an object that has one.
    pub fn get(&self, key: &str) -> (r: Option<&JsonValue>)
        ensures
            match r {
                Some(x) => json_get(*self, key@) == Some(*x),
                None => json_get(*self, key@) is None,
            },
    {
        match self {
            JsonValue::Object(entries) => {
                let k = key.to_owned();
                let mut i: usize = 0;
                proof {
                    assert(entries@.skip(0) =~= entries@);
                }
                while i < entries.len()
                    invariant
                        k@ == key@,
                        i <= entries.len(),
                        json_get(*self, key@) == lookup_member(entries@, key@),
                        lookup_member(entries@, key@) == lookup_member(entries@.skip(i as int), key@),
                    decreases entries.len() - i,
                {
                    proof {
                        assert(entries@.skip(i as int)[0] == entries@[i as int]);
                    }
                    if entries[i].0 == k {
                        return Some(&entries[i].1);
                    }
                    proof {
                        assert(entries@.skip(i as int).drop_first() =~= entries@.skip(i + 1));
                    }
                    i = i + 1;
                }
                None
            },
            _ => None,
        }
    }

    /// The text of this value, when it is a string.
    pub fn as_str(&self) -> (r: Option<&str>)
        ensures
            opt_text(r) == json_str(Some(*self)),
    {
        match self {
            JsonValue::Str(s) => Some(s.as_str()),
            _ => None,
        }
    }

    /// The value of this value, when it is an integer that fits in a `u64`.
    pub fn as_u64(&self) -> (r: Option<u64>)
        ensures
            r == json_u64(Some(*self)),
    {
        match self {
            JsonValue::Number(JsonNumber::PosInt(n)) => Some(*n),
            _ => None,
        }
    }
}

/// The text of the member `key` of `v`, when it is a string.
fn member_text(v: &JsonValue, key: &str) -> (r: Option<String>)
    ensures
        opt_string(r) == json_str(json_get(*v, key@)),
{
    match v.get(key) {
        Some(m) => match m.as_str() {
            Some(s) => Some(s.to_owned()),
            None => None,
        },
        None => None,
    }
}

/// The project directory that a request body names: `metadata.cwd`, or else
/// `metadata.project_dir`, whichever is a string first.
pub open spec fn project_dir_of(body: JsonValue) -> Option<Seq<char>> {
    match json_get(body, "metadata"@) {
        Some(metadata) => match json_str(json_get(metadata, "cwd"@)) {
            Some(dir) => Some(dir),
            None => json_str(json_get(metadata, "project_dir"@)),
        },
        None => None,
    }
}

/// Extracts the project directory from a request body: `metadata.cwd` first,
/// then `metadata.project_dir`, else `None`.
pub fn extract_project_dir(body: &JsonValue) -> (r: Option<String>)
    ensures
        opt_string(r) == project_dir_of(*body),
{
    let metadata = match body.get("metadata") {
        Some(m) => m,
        None => return None,
    };
    match member_text(metadata, "cwd") {
        Some(dir) => Some(dir),
        None => member_text(metadata, "project_dir"),
    }
}

/// A client session file speaks of `session_id` when its `sessionId` is that
/// text.
pub open spec fn names_session(file: JsonValue, session_id: Seq<char>) -> bool {
    json_str(json_get(file, "sessionId"@)) == Some(session_id)
}

/// Whether the client session file `file` speaks of `session_id`.
fn file_names_session(file: &JsonValue, session_id: &str) -> (r: bool)
    ensures
        r == names_session(*file, session_id@),
{
    match file.get("sessionId") {
        Some(v) => match v.as_str() {
            Some(s) => same_text(s, session_id),
            None => false,
        },
        None => false,
    }
}

/// What one client session file tells of the project directory of
/// `session_id`: `None` when the file is about another session (the search
/// goes on), else the final answer, its `cwd` when that is a string.
pub fn session_file_project_dir(file: &JsonValue, session_id: &str) -> (r: Option<Option<String>>)
    ensures
        names_session(*file, session_id@) <==> r is Some,
        r matches Some(dir) ==> opt_string(dir) == json_str(json_get(*file, "cwd"@)),
{
    if file_names_session(file, session_id) {
        Some(member_text(file, "cwd"))
    } else {
        None
    }
}

/// What one client session file tells of the process behind `session_id`:
/// `None` when the file is about another session (the search goes on), else
/// the process id it records, when its `pid` is an integer that fits a `u64`.
pub fn session_file_pid(file: &JsonValue, session_id: &str) -> (r: Option<Option<u64>>)
    ensures
        names_session(*file, session_id@) <==> r is Some,
        r matches Some(pid) ==> pid == json_u64(json_get(*file, "pid"@)),
{
    if file_names_session(file, session_id) {
        match file.get("pid") {
            Some(v) => Some(v.as_u64()),
            None => Some(None),
        }
    } else {
        None
    }
}

} // verus!
