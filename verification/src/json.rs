//! JSON documents as plain trees.
//!
//! Parsing is done by `serde_json`; what comes back is copied into a tree
//! of the library's own, on which every lookup is verified code.

use crate::text::{chars_of, same_chars};
use vstd::prelude::*;

verus! {

/// A JSON value.
#[derive(Debug)]
pub enum JsonValue {
    /// `null`.
    Null,
    /// `true` or `false`.
    Bool(bool),
    /// A number, as its decimal text.
    Number(String),
    /// A string.
    Text(String),
    /// An array with its elements in order.
    Array(Vec<JsonValue>),
    /// An object with its members; no key occurs twice.
    Object(Vec<(String, JsonValue)>),
}

/// The value type of `serde_json`.
#[verifier::external_type_specification]
#[verifier::external_body]
pub struct ExJsonValue(serde_json::Value);

/// The tree that `serde_json` reads from a text; nothing where the text is
/// no JSON document.
pub uninterp spec fn json_document(text: Seq<char>) -> Option<JsonValue>;

/// Copies a value of `serde_json` into a tree, variant by variant: a
/// number becomes its decimal text, an object the list of its members in
/// the order in which `serde_json` walks them.
#[verifier::external_body]
fn tree_of(value: &serde_json::Value) -> JsonValue {
    match value {
        serde_json::Value::Null => JsonValue::Null,
        serde_json::Value::Bool(b) => JsonValue::Bool(*b),
        serde_json::Value::Number(n) => JsonValue::Number(n.to_string()),
        serde_json::Value::String(s) => JsonValue::Text(s.clone()),
        serde_json::Value::Array(a) => JsonValue::Array(a.iter().map(tree_of).collect()),
        serde_json::Value::Object(o) => JsonValue::Object(
            o.iter().map(|(k, v)| (k.clone(), tree_of(v))).collect(),
        ),
    }
}

/// `serde_json::from_str` for a value: reads a JSON document. The result
/// depends on the text alone; it is named, not spelled out.
#[verifier::external_body]
pub(crate) fn parse_json(text: &str) -> (r: Option<JsonValue>)
    ensures
        r == json_document(text@),
{
    match serde_json::from_str::<serde_json::Value>(text) {
        Ok(value) => Some(tree_of(&value)),
        Err(_) => None,
    }
}

/// Index of the first member of `members[from..]` with the key `key`; the
/// length where there is none.
pub open spec fn member_index(members: Seq<(String, JsonValue)>, key: Seq<char>, from: int) -> int
    decreases members.len() - from,
{
    if from < 0 || from >= members.len() {
        members.len() as int
    } else if members[from].0@ == key {
        from
    } else {
        member_index(members, key, from + 1)
    }
}

impl JsonValue {
    /// The member `key` of an object; nothing for a value of another kind
    /// or an object without such a member.
    pub open spec fn member(self, key: Seq<char>) -> Option<JsonValue> {
        match self {
            JsonValue::Object(members) => {
                let i = member_index(members@, key, 0);
                if i < members@.len() {
                    Some(members@[i].1)
                } else {
                    None
                }
            },
            _ => None,
        }
    }

    /// The text of a string; nothing for a value of another kind.
    pub open spec fn text(self) -> Option<Seq<char>> {
        match self {
            JsonValue::Text(s) => Some(s@),
            _ => None,
        }
    }

    /// The text of the member `key`, where that member is a string.
    pub open spec fn member_text(self, key: Seq<char>) -> Option<Seq<char>> {
        match self.member(key) {
            Some(v) => v.text(),
            None => None,
        }
    }

    /// The elements of an array; nothing for a value of another kind.
    pub open spec fn elements(self) -> Option<Seq<JsonValue>> {
        match self {
            JsonValue::Array(items) => Some(items@),
            _ => None,
        }
    }

    /// Returns the member `key` of an object.
    #[verifier::loop_isolation(false)]
    pub fn get(&self, key: &str) -> (r: Option<&JsonValue>)
        ensures
            match r {
                Some(v) => self.member(key@) == Some(*v),
                None => self.member(key@) is None,
            },
    {
        match self {
            JsonValue::Object(members) => {
                let wanted = chars_of(key);
                let mut i: usize = 0;
                while i < members.len()
                    invariant
                        i <= members.len(),
                        wanted@ == key@,
                        member_index(members@, key@, 0) == member_index(members@, key@, i as int),
                    decreases members.len() - i,
                {
                    let name = chars_of(members[i].0.as_str());
                    if same_chars(&name, &wanted) {
                        assert(members@[i as int].0@ == key@);
                        assert(member_index(members@, key@, i as int) == i);
                        return Some(&members[i].1);
                    }
                    i += 1;
                }
                None
            },
            _ => None,
        }
    }

    /// Returns the text of a string.
    pub fn as_str(&self) -> (r: Option<&str>)
        ensures
            match r {
                Some(s) => self.text() == Some(s@),
                None => self.text() is None,
            },
    {
        match self {
            JsonValue::Text(s) => Some(s.as_str()),
            _ => None,
        }
    }

    /// Returns the elements of an array.
    pub fn as_array(&self) -> (r: Option<&Vec<JsonValue>>)
        ensures
            match r {
                Some(items) => self.elements() == Some(items@),
                None => self.elements() is None,
            },
    {
        match self {
            JsonValue::Array(items) => Some(items),
            _ => None,
        }
    }

    /// Returns the text of the member `key`, where that member is a
    /// string.
    pub fn get_str(&self, key: &str) -> (r: Option<&str>)
        ensures
            match r {
                Some(s) => self.member_text(key@) == Some(s@),
                None => self.member_text(key@) is None,
            },
    {
        match self.get(key) {
            Some(v) => v.as_str(),
            None => None,
        }
    }
}

} // verus!
