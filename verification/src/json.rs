//! JSON values: what `serde_json` parses, seen as a tree of plain values.

use vstd::prelude::*;

verus! {

/// The type `serde_json::Value`.
#[verifier::external_type_specification]
#[verifier::external_body]
pub struct ExJsonValue(serde_json::Value);

/// What a JSON value holds. A number is held by its decimal text.
pub enum JsonTree {
    Null,
    Bool(bool),
    Number(Seq<char>),
    Text(Seq<char>),
    Array(Seq<JsonTree>),
    Object(Map<Seq<char>, JsonTree>),
}

/// What a `serde_json::Value` holds.
pub uninterp spec fn json_tree(value: serde_json::Value) -> JsonTree;

/// What `serde_json::from_str` reads from a text, or how its error reads.
pub uninterp spec fn json_parse(text: Seq<char>) -> Result<JsonTree, Seq<char>>;

/// What a text holds, if it is JSON.
pub open spec fn json_value(text: Seq<char>) -> Option<JsonTree> {
    match json_parse(text) {
        Ok(tree) => Some(tree),
        Err(_) => None,
    }
}

/// What `to_string` of a `serde_json::Value` writes for the value.
pub uninterp spec fn compact_json(tree: JsonTree) -> Seq<char>;

/// What the elements of an array hold.
pub open spec fn json_trees(values: Seq<serde_json::Value>) -> Seq<JsonTree> {
    Seq::new(values.len(), |i: int| json_tree(values[i]))
}

/// The value of a key, if the tree is an object that has the key.
pub open spec fn json_member(tree: JsonTree, key: Seq<char>) -> Option<JsonTree> {
    match tree {
        JsonTree::Object(members) => if members.contains_key(key) {
            Some(members[key])
        } else {
            None
        },
        _ => None,
    }
}

/// The text, if the tree is one.
pub open spec fn json_text(tree: Option<JsonTree>) -> Option<Seq<char>> {
    match tree {
        Some(JsonTree::Text(s)) => Some(s),
        _ => None,
    }
}

/// `serde_json::Value::as_str`: the text of a string value, nothing of any
/// other.
pub assume_specification[ serde_json::Value::as_str ](value: &serde_json::Value) -> (r: Option<
    &str,
>)
    ensures
        match r {
            Some(s) => json_tree(*value) == JsonTree::Text(s@),
            None => !(json_tree(*value) is Text),
        },
;

/// `serde_json::Value::as_array`: the elements of an array, nothing of any
/// other value.
pub assume_specification[ serde_json::Value::as_array ](value: &serde_json::Value) -> (r: Option<
    &Vec<serde_json::Value>,
>)
    ensures
        match r {
            Some(items) => json_tree(*value) == JsonTree::Array(json_trees(items@)),
            None => !(json_tree(*value) is Array),
        },
;

/// `serde_json::Value::is_null`: whether the value is null.
pub assume_specification[ serde_json::Value::is_null ](value: &serde_json::Value) -> (r: bool)
    ensures
        r == (json_tree(*value) == JsonTree::Null),
;

/// `serde_json::Value::get` with a text key: the value of the key in an
/// object; nothing if the key is missing or the value is no object.
#[verifier::external_body]
pub(crate) fn member<'a>(value: &'a serde_json::Value, key: &str) -> (r: Option<
    &'a serde_json::Value,
>)
    ensures
        match r {
            Some(v) => json_member(json_tree(*value), key@) == Some(json_tree(*v)),
            None => json_member(json_tree(*value), key@) is None,
        },
{
    value.get(key)
}

/// `serde_json::Value::as_number` and the number's decimal text; nothing if the
/// value is no number.
#[verifier::external_body]
pub(crate) fn number_text(value: &serde_json::Value) -> (r: Option<String>)
    ensures
        match r {
            Some(s) => json_tree(*value) == JsonTree::Number(s@),
            None => !(json_tree(*value) is Number),
        },
{
    value.as_number().map(|n| n.to_string())
}

/// `serde_json::Value::to_string`: the compact JSON of the value, whose text
/// depends on nothing but what the value holds.
#[verifier::external_body]
pub(crate) fn to_text(value: &serde_json::Value) -> (r: String)
    ensures
        r@ == compact_json(json_tree(*value)),
{
    value.to_string()
}

/// `serde_json::from_str` into a `serde_json::Value`, and the text of its error:
/// both are functions of the text.
#[verifier::external_body]
pub(crate) fn parse(text: &str) -> (r: Result<serde_json::Value, String>)
    ensures
        match r {
            Ok(v) => json_parse(text@) == Ok::<JsonTree, Seq<char>>(json_tree(v)),
            Err(e) => json_parse(text@) == Err::<JsonTree, Seq<char>>(e@),
        },
{
    serde_json::from_str(text).map_err(|e| e.to_string())
}

/// `serde_json::Value::is_object`: whether the value is an object.
pub assume_specification[ serde_json::Value::is_object ](value: &serde_json::Value) -> (r: bool)
    ensures
        r == (json_tree(*value) is Object),
;

/// `serde_json::Value::String`: the value that holds a text.
#[verifier::external_body]
pub(crate) fn text_value(text: String) -> (r: serde_json::Value)
    ensures
        json_tree(r) == JsonTree::Text(text@),
{
    serde_json::Value::String(text)
}

/// `serde_json::Value::Array`: the value that holds the elements.
#[verifier::external_body]
pub(crate) fn array_value(items: Vec<serde_json::Value>) -> (r: serde_json::Value)
    ensures
        json_tree(r) == JsonTree::Array(json_trees(items@)),
{
    serde_json::Value::Array(items)
}

/// An object without members.
pub open spec fn no_members() -> JsonTree {
    JsonTree::Object(Map::empty())
}

/// `serde_json::Map::new`: an object without members.
#[verifier::external_body]
pub(crate) fn empty_object() -> (r: serde_json::Value)
    ensures
        json_tree(r) == no_members(),
{
    serde_json::Value::Object(serde_json::Map::new())
}

/// The object with one member set.
pub open spec fn with_member(tree: JsonTree, key: Seq<char>, value: JsonTree) -> JsonTree {
    match tree {
        JsonTree::Object(members) => JsonTree::Object(members.insert(key, value)),
        other => other,
    }
}

/// `serde_json::Map::insert`: sets a member of an object, in place of what the
/// key had.
#[verifier::external_body]
pub(crate) fn set_member(object: &mut serde_json::Value, key: &str, value: serde_json::Value)
    requires
        json_tree(*old(object)) is Object,
    ensures
        json_tree(*final(object)) == with_member(
            json_tree(*old(object)),
            key@,
            json_tree(value),
        ),
{
    if let Some(members) = object.as_object_mut() {
        members.insert(key.to_owned(), value);
    }
}

/// `serde_json::Value::clone`: a value that holds the same.
#[verifier::external_body]
pub(crate) fn copy_value(value: &serde_json::Value) -> (r: serde_json::Value)
    ensures
        json_tree(r) == json_tree(*value),
{
    value.clone()
}

/// The text of a member.
pub(crate) fn text_member<'a>(value: &'a serde_json::Value, key: &str) -> (r: Option<&'a str>)
    ensures
        match r {
            Some(s) => json_text(json_member(json_tree(*value), key@)) == Some(s@),
            None => json_text(json_member(json_tree(*value), key@)) is None,
        },
{
    match member(value, key) {
        Some(v) => v.as_str(),
        None => None,
    }
}

} // verus!
