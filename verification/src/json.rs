//! JSON documents as the store sends them.

use vstd::prelude::*;

verus! {

/// A JSON value. It may hold secrets, and so has no form for
/// diagnostics.
#[derive(PartialEq)]
pub enum Json {
    /// `null`.
    Null,
    /// `true` or `false`.
    Bool(bool),
    /// A number, in decimal notation.
    Number(String),
    /// A string.
    Text(String),
    /// An array.
    Array(Vec<Json>),
    /// An object: its members, each with its key.
    Object(Vec<(String, Json)>),
}

/// `serde_json::Value`, of which nothing is known here: it only passes from
/// `serde_json::from_str` into a [`Json`].
#[verifier::external_type_specification]
#[verifier::external_body]
pub struct ExValue(serde_json::Value);

/// What `serde_json::from_str` reads from `text` as a `serde_json::Value`: the
/// document, or the words in which it refuses the text.
pub uninterp spec fn json_read(text: Seq<char>) -> Result<Json, Seq<char>>;

/// Moves a `serde_json::Value` into a [`Json`], variant by variant; a number
/// is kept as `serde_json` prints it, and an object's members in the order in
/// which its map hands them out.
#[verifier::external_body]
fn json_of_value(value: serde_json::Value) -> Json {
    match value {
        serde_json::Value::Null => Json::Null,
        serde_json::Value::Bool(b) => Json::Bool(b),
        serde_json::Value::Number(n) => Json::Number(n.to_string()),
        serde_json::Value::String(s) => Json::Text(s),
        serde_json::Value::Array(a) => Json::Array(a.into_iter().map(json_of_value).collect()),
        serde_json::Value::Object(m) => Json::Object(
            m.into_iter().map(|(k, v)| (k, json_of_value(v))).collect(),
        ),
    }
}

/// Calls `serde_json::from_str` for a `serde_json::Value`. The result depends
/// on the text alone and is named, not described: the document that was
/// read, or the message of the `serde_json::Error`.
#[verifier::external_body]
fn read_json(text: &str) -> (r: Result<Json, String>)
    ensures
        match r {
            Ok(document) => json_read(text@) == Ok::<Json, Seq<char>>(document),
            Err(message) => json_read(text@) == Err::<Json, Seq<char>>(message@),
        },
{
    match serde_json::from_str::<serde_json::Value>(text) {
        Ok(value) => Ok(json_of_value(value)),
        Err(e) => Err(e.to_string()),
    }
}

/// The first position at or after `from` whose member has the key `key`, or
/// the number of members if there is none.
pub open spec fn find_member(members: Seq<(String, Json)>, key: Seq<char>, from: int) -> int
    decreases members.len() - from,
{
    if 0 <= from < members.len() && members[from].0@ != key {
        find_member(members, key, from + 1)
    } else {
        from
    }
}

impl Json {
    /// The member of an object under `key`, the first one if the key occurs
    /// twice. Nothing, if there is no such member or the value is no object.
    pub open spec fn member(self, key: Seq<char>) -> Option<Json> {
        match self {
            Json::Object(members) => {
                let at = find_member(members@, key, 0);
                if at < members.len() {
                    Some(members@[at].1)
                } else {
                    None
                }
            },
            _ => None,
        }
    }

    /// The characters of a string. Nothing, if the value is no string.
    pub open spec fn text(self) -> Option<Seq<char>> {
        match self {
            Json::Text(s) => Some(s@),
            _ => None,
        }
    }

    /// Reads a document from its text.
    pub fn parse(text: &str) -> (r: Result<Json, String>)
        ensures
            match r {
                Ok(document) => json_read(text@) == Ok::<Json, Seq<char>>(document),
                Err(message) => json_read(text@) == Err::<Json, Seq<char>>(message@),
            },
    {
        read_json(text)
    }

    /// Looks up the member of an object under `key`.
    #[verifier::loop_isolation(false)]
    pub fn get(&self, key: &str) -> (r: Option<&Json>)
        ensures
            match r {
                Some(found) => self.member(key@) == Some(*found),
                None => self.member(key@) is None,
            },
    {
        match self {
            Json::Object(members) => {
                let wanted = key.to_owned();
                let mut i: usize = 0;
                while i < members.len()
                    invariant
                        i <= members.len(),
                        wanted@ == key@,
                        find_member(members@, key@, 0) == find_member(members@, key@, i as int),
                    decreases members.len() - i,
                {
                    if members[i].0 == wanted {
                        return Some(&members[i].1);
                    }
                    i += 1;
                }
                None
            },
            _ => None,
        }
    }

    /// The characters of a string.
    pub fn as_str(&self) -> (r: Option<&str>)
        ensures
            match r {
                Some(s) => self.text() == Some(s@),
                None => self.text() is None,
            },
    {
        match self {
            Json::Text(s) => Some(s.as_str()),
            _ => None,
        }
    }
}

} // verus!
