//! TOML documents as plain trees.
//!
//! Parsing is done by `toml`; what comes back is copied into a tree of the
//! library's own.

use crate::text::{chars_of, same_chars};
use vstd::prelude::*;

verus! {

/// A TOML value.
#[derive(Debug)]
pub enum TomlValue {
    /// A string.
    Text(String),
    /// An integer.
    Integer(i64),
    /// A float, as its text.
    Float(String),
    /// A boolean.
    Boolean(bool),
    /// A date or time, as its text.
    Datetime(String),
    /// An array with its elements in order.
    Array(Vec<TomlValue>),
    /// A table with its entries; no key occurs twice.
    Table(Vec<(String, TomlValue)>),
}

/// The value type of `toml`.
#[verifier::external_type_specification]
#[verifier::external_body]
pub struct ExTomlValue(toml::Value);

/// The entries of the table that `toml` reads from a text; nothing where
/// the text is no TOML document.
pub uninterp spec fn toml_document(text: Seq<char>) -> Option<Vec<(String, TomlValue)>>;

/// Copies a value of `toml` into a tree, variant by variant: floats and
/// dates become their text, a table the list of its entries in the order
/// in which `toml` walks them.
#[verifier::external_body]
fn tree_of(value: &toml::Value) -> TomlValue {
    match value {
        toml::Value::String(s) => TomlValue::Text(s.clone()),
        toml::Value::Integer(i) => TomlValue::Integer(*i),
        toml::Value::Float(f) => TomlValue::Float(f.to_string()),
        toml::Value::Boolean(b) => TomlValue::Boolean(*b),
        toml::Value::Datetime(d) => TomlValue::Datetime(d.to_string()),
        toml::Value::Array(a) => TomlValue::Array(a.iter().map(tree_of).collect()),
        toml::Value::Table(t) => TomlValue::Table(
            t.iter().map(|(k, v)| (k.clone(), tree_of(v))).collect(),
        ),
    }
}

/// `str::parse` for a table of `toml`: reads a TOML document. The result
/// depends on the text alone; it is named, not spelled out.
#[verifier::external_body]
pub(crate) fn parse_toml(text: &str) -> (r: Option<Vec<(String, TomlValue)>>)
    ensures
        r == toml_document(text@),
{
    match text.parse::<toml::Table>() {
        Ok(table) => Some(table.iter().map(|(k, v)| (k.clone(), tree_of(v))).collect()),
        Err(_) => None,
    }
}

/// Index of the first entry of `entries[from..]` with the key `key`; the
/// length where there is none.
pub open spec fn entry_index(entries: Seq<(String, TomlValue)>, key: Seq<char>, from: int) -> int
    decreases entries.len() - from,
{
    if from < 0 || from >= entries.len() {
        entries.len() as int
    } else if entries[from].0@ == key {
        from
    } else {
        entry_index(entries, key, from + 1)
    }
}

/// The text of the entry `key`, where the table has that entry and it is
/// a string.
pub open spec fn entry_text(entries: Seq<(String, TomlValue)>, key: Seq<char>) -> Option<Seq<char>> {
    let i = entry_index(entries, key, 0);
    if i < entries.len() {
        match entries[i].1 {
            TomlValue::Text(s) => Some(s@),
            _ => None,
        }
    } else {
        None
    }
}

/// Returns the text of the entry `key` of a table.
#[verifier::loop_isolation(false)]
pub fn get_text(entries: &Vec<(String, TomlValue)>, key: &str) -> (r: Option<String>)
    ensures
        match r {
            Some(s) => entry_text(entries@, key@) == Some(s@),
            None => entry_text(entries@, key@) is None,
        },
{
    let wanted = chars_of(key);
    let mut i: usize = 0;
    while i < entries.len()
        invariant
            i <= entries.len(),
            entry_index(entries@, key@, 0) == entry_index(entries@, key@, i as int),
        decreases entries.len() - i,
    {
        let name = chars_of(entries[i].0.as_str());
        if same_chars(&name, &wanted) {
            assert(entry_index(entries@, key@, i as int) == i);
            return match &entries[i].1 {
                TomlValue::Text(s) => Some(s.clone()),
                _ => None,
            };
        }
        i += 1;
    }
    None
}

} // verus!
