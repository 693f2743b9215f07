//! Reading JSON documents: the calls into `serde_json`, and what they say.

use vstd::prelude::*;

verus! {

/// What a JSON value says. A number is the text that `serde_json` prints for it.
pub enum JsonTree {
    Null,
    Bool(bool),
    Number(Seq<char>),
    Text(Seq<char>),
    Array(Seq<JsonTree>),
    Object(Map<Seq<char>, JsonTree>),
}

/// A field of a record: what stands under one key.
#[derive(Debug)]
pub enum Field {
    /// There is no such key.
    Missing,
    Text(String),
    /// A number, as text.
    Number(String),
    Bool(bool),
    /// `null`, an array or an object.
    Other,
}

/// A field, as a value.
pub enum FieldView {
    Missing,
    Text(Seq<char>),
    Number(Seq<char>),
    Bool(bool),
    Other,
}

impl View for Field {
    type V = FieldView;

    open spec fn view(&self) -> FieldView {
        match *self {
            Field::Missing => FieldView::Missing,
            Field::Text(text) => FieldView::Text(text@),
            Field::Number(text) => FieldView::Number(text@),
            Field::Bool(yes) => FieldView::Bool(yes),
            Field::Other => FieldView::Other,
        }
    }
}

/// The field that a JSON value makes.
pub open spec fn field_of(tree: JsonTree) -> FieldView {
    match tree {
        JsonTree::Text(text) => FieldView::Text(text),
        JsonTree::Number(text) => FieldView::Number(text),
        JsonTree::Bool(yes) => FieldView::Bool(yes),
        _ => FieldView::Other,
    }
}

/// What stands under a key of a JSON value.
pub open spec fn member_of(tree: JsonTree, key: Seq<char>) -> Option<JsonTree> {
    match tree {
        JsonTree::Object(members) => if members.contains_key(key) {
            Some(members[key])
        } else {
            None
        },
        _ => None,
    }
}

/// The field under a key of a JSON value.
pub open spec fn field_under(tree: JsonTree, key: Seq<char>) -> FieldView {
    match member_of(tree, key) {
        Some(value) => field_of(value),
        None => FieldView::Missing,
    }
}

/// What values say, one by one.
pub open spec fn json_trees(values: Seq<serde_json::Value>) -> Seq<JsonTree> {
    Seq::new(values.len(), |i: int| json_tree(values[i]))
}

#[verifier::external_type_specification]
#[verifier::external_body]
pub struct ExValue(serde_json::Value);

/// What a parsed value holds.
pub uninterp spec fn json_tree(value: serde_json::Value) -> JsonTree;

/// What `serde_json::from_str` makes of a text: the document, or its own words on what is wrong
/// with it.
pub uninterp spec fn json_document(text: Seq<char>) -> Result<JsonTree, Seq<char>>;

/// Calls `serde_json::from_str`. The result is that of [`json_document`]; the error is handed on
/// as the text that its `Display` gives.
#[verifier::external_body]
pub(crate) fn parse_value(text: &str) -> (parsed: Result<serde_json::Value, String>)
    ensures
        match parsed {
            Ok(value) => json_document(text@) == Ok::<JsonTree, Seq<char>>(json_tree(value)),
            Err(message) => json_document(text@) == Err::<JsonTree, Seq<char>>(message@),
        },
{
    serde_json::from_str::<serde_json::Value>(text).map_err(|error| error.to_string())
}

/// Takes `serde_json::Value::Array` apart: the items in their order, or nothing of any other
/// variant.
#[verifier::external_body]
pub(crate) fn array_items(value: serde_json::Value) -> (items: Option<Vec<serde_json::Value>>)
    ensures
        match items {
            Some(values) => json_tree(value) == JsonTree::Array(json_trees(values@)),
            None => !(json_tree(value) is Array),
        },
{
    match value {
        serde_json::Value::Array(items) => Some(items),
        _ => None,
    }
}

/// `serde_json::Value::is_object`: true of an object and of nothing else.
pub assume_specification[ serde_json::Value::is_object ](value: &serde_json::Value) -> (yes: bool)
    ensures
        yes == (json_tree(*value) is Object),
;

/// Calls `serde_json::Value::get` with a string: what stands under the key, and nothing where the
/// value is no object or has no such key.
#[verifier::external_body]
pub(crate) fn member<'a>(value: &'a serde_json::Value, key: &str) -> (found: Option<
    &'a serde_json::Value,
>)
    ensures
        match found {
            Some(inner) => member_of(json_tree(*value), key@) == Some(json_tree(*inner)),
            None => member_of(json_tree(*value), key@) is None,
        },
{
    value.get(key)
}

/// Tells the variants of `serde_json::Value` apart: a text, a number by the text that its `Display`
/// gives, a truth value, or something else.
#[verifier::external_body]
pub(crate) fn scalar(value: &serde_json::Value) -> (field: Field)
    ensures
        field@ == field_of(json_tree(*value)),
{
    match value {
        serde_json::Value::String(text) => Field::Text(text.clone()),
        serde_json::Value::Number(number) => Field::Number(number.to_string()),
        serde_json::Value::Bool(yes) => Field::Bool(*yes),
        _ => Field::Other,
    }
}

/// The field under a key.
pub(crate) fn field(value: &serde_json::Value, key: &str) -> (field: Field)
    ensures
        field@ == field_under(json_tree(*value), key@),
{
    match member(value, key) {
        Some(inner) => scalar(inner),
        None => Field::Missing,
    }
}

/// A field is what stands under its key: a text, a number or a truth value as it is, and `null`, an
/// array or an object as something else. Without the key, and in what is no object, it is missing.
pub proof fn law_a_field_is_what_stands_under_its_key(
    members: Map<Seq<char>, JsonTree>,
    key: Seq<char>,
    other: JsonTree,
)
    ensures
        ({
            let tree = JsonTree::Object(members);
            &&& !members.contains_key(key) ==> field_under(tree, key) == FieldView::Missing
                && member_of(tree, key) is None
            &&& members.contains_key(key) ==> member_of(tree, key) == Some(members[key])
            &&& members.contains_key(key) ==> (match members[key] {
                JsonTree::Text(value) => field_under(tree, key) == FieldView::Text(value),
                JsonTree::Number(value) => field_under(tree, key) == FieldView::Number(value),
                JsonTree::Bool(value) => field_under(tree, key) == FieldView::Bool(value),
                JsonTree::Null => field_under(tree, key) == FieldView::Other,
                JsonTree::Array(_) => field_under(tree, key) == FieldView::Other,
                JsonTree::Object(_) => field_under(tree, key) == FieldView::Other,
            })
        }),
        !(other is Object) ==> field_under(other, key) == FieldView::Missing && member_of(
            other,
            key,
        ) is None,
{
}

} // verus!
