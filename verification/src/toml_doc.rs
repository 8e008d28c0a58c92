//! The TOML document behind a build descriptor.
//!
//! Documents are read, changed and written by the `toml` crate. Its values
//! are opaque here; what they hold is spoken of through a model, and every
//! function of this module states over that model what the call it makes
//! does.

use crate::text::texts;
use vstd::prelude::*;

verus! {

/// The model of a TOML value.
pub enum Node {
    /// A string.
    Text(Seq<char>),
    /// An array.
    List(Seq<Node>),
    /// A table, by key.
    Table(Map<Seq<char>, Node>),
    /// Any other value (an integer, a float, a boolean, a datetime), by the
    /// text that a document writes it as.
    Scalar(Seq<char>),
}

#[verifier::external_type_specification]
#[verifier::external_body]
pub struct ExValue(toml::Value);

#[verifier::external_type_specification]
#[verifier::external_body]
#[verifier::reject_recursive_types(K)]
#[verifier::reject_recursive_types(V)]
pub struct ExMap<K, V>(toml::map::Map<K, V>);

/// What a table without entries holds.
pub open spec fn no_nodes() -> Map<Seq<char>, Node> {
    Map::empty()
}

/// What a TOML value holds.
pub uninterp spec fn value_node(value: toml::Value) -> Node;

/// What a TOML table holds, by key.
pub uninterp spec fn table_nodes(table: toml::map::Map<String, toml::Value>) -> Map<
    Seq<char>,
    Node,
>;

/// The document that `text` is read as, or `None` where `text` is no TOML
/// document.
pub uninterp spec fn parsed_document(text: Seq<char>) -> Option<Node>;

/// The text that a document is written as, or `None` where it cannot be
/// written as a document.
pub uninterp spec fn document_text(document: Node) -> Option<Seq<char>>;

/// Reads a TOML document.
///
/// Calls `<toml::Value as FromStr>::from_str`, which parses the whole text
/// as one document and fails on anything else. The outcome depends on the
/// text alone.
#[verifier::external_body]
pub(crate) fn parse_document(text: &str) -> (r: Option<toml::Value>)
    ensures
        match r {
            Some(value) => parsed_document(text@) == Some(value_node(value)),
            None => parsed_document(text@) is None,
        },
{
    text.parse::<toml::Value>().ok()
}

/// Writes a TOML document.
///
/// Calls `toml::to_string`, which serializes the value as a document, or
/// fails where the value has no form as one. The outcome depends on what the
/// value holds alone.
#[verifier::external_body]
pub(crate) fn write_document(document: &toml::Value) -> (r: Option<String>)
    ensures
        match r {
            Some(text) => document_text(value_node(*document)) == Some(text@),
            None => document_text(value_node(*document)) is None,
        },
{
    toml::to_string(document).ok()
}

/// The table inside a value, where the value is a table.
///
/// Tells the variant `toml::Value::Table` from the others and moves its
/// table out.
#[verifier::external_body]
pub(crate) fn into_table(value: toml::Value) -> (r: Option<toml::map::Map<String, toml::Value>>)
    ensures
        match value_node(value) {
            Node::Table(entries) => r matches Some(table) && table_nodes(table) == entries,
            _ => r is None,
        },
{
    match value {
        toml::Value::Table(table) => Some(table),
        _ => None,
    }
}

/// The string inside a value, where the value is a string.
///
/// Calls `toml::Value::as_str`, which gives the string of the variant
/// `toml::Value::String` and nothing for the others.
#[verifier::external_body]
pub(crate) fn value_text(value: &toml::Value) -> (r: Option<String>)
    ensures
        match value_node(*value) {
            Node::Text(text) => r matches Some(found) && found@ == text,
            _ => r is None,
        },
{
    value.as_str().map(|text| text.to_string())
}

/// A value that is the string `text`.
///
/// Builds the variant `toml::Value::String`.
#[verifier::external_body]
pub(crate) fn text_value(text: &str) -> (value: toml::Value)
    ensures
        value_node(value) == Node::Text(text@),
{
    toml::Value::String(text.to_string())
}

/// A value that is the array of `items`.
///
/// Builds the variant `toml::Value::Array`.
#[verifier::external_body]
pub(crate) fn list_value(items: Vec<toml::Value>) -> (value: toml::Value)
    ensures
        value_node(value) == Node::List(items@.map_values(|item: toml::Value| value_node(item))),
{
    toml::Value::Array(items)
}

/// A value that is `table`.
///
/// Builds the variant `toml::Value::Table`.
#[verifier::external_body]
pub(crate) fn table_value(table: toml::map::Map<String, toml::Value>) -> (value: toml::Value)
    ensures
        value_node(value) == Node::Table(table_nodes(table)),
{
    toml::Value::Table(table)
}

/// A table without entries.
///
/// Calls `toml::map::Map::new`.
#[verifier::external_body]
pub(crate) fn new_table() -> (table: toml::map::Map<String, toml::Value>)
    ensures
        table_nodes(table) == no_nodes(),
{
    toml::map::Map::new()
}

/// A copy of the value under `key`, where the table has that key.
///
/// Calls `toml::map::Map::get`, which finds the value by its key, and
/// clones what it finds.
#[verifier::external_body]
pub(crate) fn table_get(table: &toml::map::Map<String, toml::Value>, key: &str) -> (r: Option<
    toml::Value,
>)
    ensures
        match r {
            Some(value) => table_nodes(*table).contains_key(key@) && value_node(value)
                == table_nodes(*table)[key@],
            None => !table_nodes(*table).contains_key(key@),
        },
{
    table.get(key).cloned()
}

/// Puts `value` under `key`, in place of what the table held under that key.
///
/// Calls `toml::map::Map::insert`; every other entry stays as it is.
#[verifier::external_body]
pub(crate) fn table_insert(
    table: &mut toml::map::Map<String, toml::Value>,
    key: &str,
    value: toml::Value,
)
    ensures
        table_nodes(*final(table)) == table_nodes(*old(table)).insert(key@, value_node(value)),
{
    table.insert(key.to_string(), value);
}

/// The keys of the table, each once.
///
/// Calls `toml::map::Map::keys` and clones what it walks over. Nothing is
/// said of the order.
#[verifier::external_body]
pub(crate) fn table_keys(table: &toml::map::Map<String, toml::Value>) -> (keys: Vec<String>)
    ensures
        texts(keys@).no_duplicates(),
        forall|key: Seq<char>| table_nodes(*table).contains_key(key) <==> texts(keys@).contains(key),
{
    table.keys().cloned().collect()
}

} // verus!
