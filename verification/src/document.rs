//! The sources as generic JSON documents. A document is held as `serde_json`
//! parsed it, so that whatever the global registry contains beyond the
//! servers this library knows about is carried through an edit untouched.
//! What the library needs of a document is reached through the small
//! functions below, whose contracts state what the `serde_json` calls in
//! their bodies do; those contracts are taken on trust.

use vstd::prelude::*;

verus! {

/// A parsed JSON value of `serde_json`, opaque to the verifier.
#[verifier::external_type_specification]
#[verifier::external_body]
pub struct ExJsonValue(serde_json::Value);

/// The error of `serde_json`, opaque to the verifier.
#[verifier::external_type_specification]
#[verifier::external_body]
pub struct ExJsonError(serde_json::Error);

/// What a JSON value says. A number is carried as one unit; an object is a
/// map from member name to value, so the order of its members says nothing.
pub enum JsonValue {
    Null,
    Bool(bool),
    Number(Seq<char>),
    Text(Seq<char>),
    Array(Seq<JsonValue>),
    Object(Map<Seq<char>, JsonValue>),
}

impl JsonValue {
    /// The member `key` of an object; nothing for a missing member or for a
    /// value that is no object.
    pub open spec fn get(self, key: Seq<char>) -> Option<JsonValue> {
        match self {
            JsonValue::Object(m) => if m.contains_key(key) {
                Some(m[key])
            } else {
                None
            },
            _ => None,
        }
    }

    /// The object with member `key` set to `item`; a value that is no object
    /// stays as it is.
    pub open spec fn put(self, key: Seq<char>, item: JsonValue) -> JsonValue {
        match self {
            JsonValue::Object(m) => JsonValue::Object(m.insert(key, item)),
            _ => self,
        }
    }

    /// The object without member `key`; a value that is no object stays as it
    /// is.
    pub open spec fn without(self, key: Seq<char>) -> JsonValue {
        match self {
            JsonValue::Object(m) => JsonValue::Object(m.remove(key)),
            _ => self,
        }
    }
}

/// The object without members.
pub open spec fn empty_object() -> JsonValue {
    JsonValue::Object(Map::empty())
}

/// What a parsed value of `serde_json` says.
pub uninterp spec fn tree(v: serde_json::Value) -> JsonValue;

/// What `serde_json` makes of a text: the value it parses to, or nothing
/// where it rejects the text.
pub uninterp spec fn parsed_tree(text: Seq<char>) -> Option<JsonValue>;

/// The indented text that `serde_json` writes for a value. It is a function
/// of what the value says as long as `serde_json` keeps the members of an
/// object by key, which it does unless its feature `preserve_order` is on;
/// this crate does not turn it on.
pub uninterp spec fn pretty_text(value: JsonValue) -> Seq<char>;

/// What a value that may be missing says.
pub open spec fn opt_tree(v: Option<&serde_json::Value>) -> Option<JsonValue> {
    match v {
        Some(x) => Some(tree(*x)),
        None => None,
    }
}

/// What each value of a list says.
pub open spec fn trees(items: Seq<serde_json::Value>) -> Seq<JsonValue> {
    Seq::new(items.len(), |i: int| tree(items[i]))
}

/// Calls `serde_json::from_str` for a `Value`. Claimed: the outcome depends
/// on the text alone: success with the value that `parsed_tree` names, or an
/// error where it names none.
#[verifier::external_body]
pub(crate) fn parse_value(text: &str) -> (parsed: Result<serde_json::Value, serde_json::Error>)
    ensures
        match parsed {
            Ok(v) => parsed_tree(text@) == Some(tree(v)),
            Err(_) => parsed_tree(text@) is None,
        },
{
    serde_json::from_str::<serde_json::Value>(text)
}

/// Calls `serde_json::to_string_pretty` on a `Value`. Claimed: it succeeds,
/// and the text depends on what the value says alone. It succeeds because it
/// writes into a byte vector, every key of a `Value` is a string, and a
/// number that is not finite is written as null. The text depends on the
/// value alone as long as the feature `preserve_order` of `serde_json` is
/// off, as it is here: with it the members would be written in the order in
/// which they were put in.
#[verifier::external_body]
pub(crate) fn render_value(v: &serde_json::Value) -> (rendered: Result<String, serde_json::Error>)
    ensures
        match rendered {
            Ok(text) => text@ == pretty_text(tree(*v)),
            Err(_) => false,
        },
{
    serde_json::to_string_pretty(v)
}

/// Calls `Value::get` with a text key. Claimed: it hands out the member of
/// that name where the value is an object that has one, else nothing.
#[verifier::external_body]
pub(crate) fn member<'a>(v: &'a serde_json::Value, key: &str) -> (found: Option<&'a serde_json::Value>)
    ensures
        match found {
            Some(item) => tree(*v).get(key@) == Some(tree(*item)),
            None => tree(*v).get(key@) is None,
        },
{
    v.get(key)
}

/// Calls `Map::remove` on the members of an object. Claimed: an object loses
/// the member of that name, which is handed back if there was one; a value
/// that is no object is left alone and nothing is handed back.
#[verifier::external_body]
pub(crate) fn take_member(v: &mut serde_json::Value, key: &str) -> (taken: Option<serde_json::Value>)
    ensures
        tree(*final(v)) == tree(*old(v)).without(key@),
        match taken {
            Some(item) => tree(*old(v)).get(key@) == Some(tree(item)),
            None => tree(*old(v)).get(key@) is None,
        },
{
    match v.as_object_mut() {
        Some(members) => members.remove(key),
        None => None,
    }
}

/// Calls `Map::insert` on the members of an object. Claimed: an object gets
/// `item` as its member `key`, in place of a member of that name if it had
/// one; a value that is no object is left alone.
#[verifier::external_body]
pub(crate) fn put_member(v: &mut serde_json::Value, key: &str, item: serde_json::Value)
    ensures
        tree(*final(v)) == tree(*old(v)).put(key@, tree(item)),
{
    if let Some(members) = v.as_object_mut() {
        members.insert(key.to_owned(), item);
    }
}

/// Calls `Value::is_null`. Claimed: true exactly for the null value.
#[verifier::external_body]
pub(crate) fn is_null(v: &serde_json::Value) -> (null: bool)
    ensures
        null == (tree(*v) is Null),
{
    v.is_null()
}

/// Calls `Value::is_object`. Claimed: true exactly for an object.
#[verifier::external_body]
pub(crate) fn is_object(v: &serde_json::Value) -> (object: bool)
    ensures
        object == (tree(*v) is Object),
{
    v.is_object()
}

/// Calls `Value::as_str`. Claimed: it hands out the characters of a text
/// value, and nothing for any other value.
#[verifier::external_body]
pub(crate) fn as_text<'a>(v: &'a serde_json::Value) -> (text: Option<&'a str>)
    ensures
        match text {
            Some(s) => tree(*v) == JsonValue::Text(s@),
            None => !(tree(*v) is Text),
        },
{
    v.as_str()
}

/// Calls `Value::as_array`. Claimed: it hands out the items of an array in
/// order, and nothing for any other value.
#[verifier::external_body]
pub(crate) fn as_items<'a>(v: &'a serde_json::Value) -> (items: Option<&'a Vec<serde_json::Value>>)
    ensures
        match items {
            Some(list) => tree(*v) == JsonValue::Array(trees(list@)),
            None => !(tree(*v) is Array),
        },
{
    v.as_array()
}

/// Walks `Map::keys` of the members of an object. Claimed: the names of the
/// members, each once; no names for a value that is no object.
#[verifier::external_body]
pub(crate) fn member_names(v: &serde_json::Value) -> (names: Vec<String>)
    ensures
        forall|i: int, j: int| 0 <= i < j < names.len() ==> names[i]@ != names[j]@,
        forall|i: int| 0 <= i < names.len() ==> tree(*v).get(#[trigger] names[i]@) is Some,
        forall|k: Seq<char>|
            tree(*v).get(k) is Some ==> exists|i: int|
                0 <= i < names.len() && #[trigger] names[i]@ == k,
{
    match v.as_object() {
        Some(members) => members.keys().cloned().collect(),
        None => Vec::new(),
    }
}

/// Makes `Value::Object` of `Map::new`. Claimed: an object without members.
#[verifier::external_body]
pub(crate) fn new_object() -> (v: serde_json::Value)
    ensures
        tree(v) == empty_object(),
{
    serde_json::Value::Object(serde_json::Map::new())
}

/// Makes `Value::Null`. Claimed: the null value.
#[verifier::external_body]
pub(crate) fn null_value() -> (v: serde_json::Value)
    ensures
        tree(v) == JsonValue::Null,
{
    serde_json::Value::Null
}

/// Makes `Value::String`. Claimed: the text value of the same characters.
#[verifier::external_body]
pub(crate) fn text_value(text: &str) -> (v: serde_json::Value)
    ensures
        tree(v) == JsonValue::Text(text@),
{
    serde_json::Value::String(text.to_owned())
}

/// Makes `Value::Array`. Claimed: the array of the same items in order.
#[verifier::external_body]
pub(crate) fn array_value(items: Vec<serde_json::Value>) -> (v: serde_json::Value)
    ensures
        tree(v) == JsonValue::Array(trees(items@)),
{
    serde_json::Value::Array(items)
}

/// Why the global registry could not be used.
#[derive(Debug, Clone, Copy, PartialEq, Eq, Structural)]
pub enum RegistryError {
    /// Its text is no JSON document, or does not describe projects and
    /// servers.
    Unreadable,
    /// It cannot take the change, or cannot be written out.
    Unwritable,
}

/// A JSON document as it was read: the global registry, or the override
/// file of a project.
pub struct JsonDocument {
    pub(crate) root: serde_json::Value,
}

impl View for JsonDocument {
    type V = JsonValue;

    closed spec fn view(&self) -> JsonValue {
        tree(self.root)
    }
}

impl JsonDocument {
    /// What the document says is what its parsed value says.
    pub(crate) proof fn lemma_view(&self)
        ensures
            self@ == tree(self.root),
    {
    }

    /// Reads a document from its text.
    pub fn parse(text: &str) -> (read: Result<JsonDocument, RegistryError>)
        ensures
            match parsed_tree(text@) {
                Some(t) => read matches Ok(doc) && doc@ == t,
                None => read matches Err(e) && e == RegistryError::Unreadable,
            },
    {
        match parse_value(text) {
            Ok(root) => Ok(JsonDocument { root }),
            Err(_) => Err(RegistryError::Unreadable),
        }
    }

    /// The indented text of the document. Writing a document into a text
    /// always succeeds.
    pub fn render(&self) -> (written: Result<String, RegistryError>)
        ensures
            written matches Ok(text) && text@ == pretty_text(self@),
    {
        match render_value(&self.root) {
            Ok(text) => Ok(text),
            Err(_) => Err(RegistryError::Unwritable),
        }
    }
}

} // verus!
