//! Objects of JSON, built field by field and read with `serde_json`.

use serde_json::{Map as Object, Value};

use vstd::prelude::*;

use crate::text;

verus! {

/// `serde_json::Value`.
#[verifier::external_type_specification]
#[verifier::external_body]
pub struct ExValue(serde_json::Value);

/// `serde_json::Map`.
#[verifier::external_type_specification]
#[verifier::external_body]
#[verifier::reject_recursive_types(K)]
#[verifier::reject_recursive_types(V)]
pub struct ExObject<K, V>(serde_json::Map<K, V>);

/// A value of a field.
pub enum FieldView {
    Null,
    Flag(bool),
    Number(int),
    Text(Seq<char>),
}

/// No fields at all.
pub open spec fn no_fields() -> Map<Seq<char>, FieldView> {
    Map::empty()
}

/// The fields of an object.
pub uninterp spec fn fields(object: serde_json::Map<String, serde_json::Value>) -> Map<
    Seq<char>,
    FieldView,
>;

/// What `serde_json::to_string` writes of an object with these fields. The
/// object keeps its fields sorted by name, so the order in which they were put
/// in does not matter.
pub uninterp spec fn object_text(fields: Map<Seq<char>, FieldView>) -> Seq<char>;

/// `serde_json::Map::new`: an object without fields.
#[verifier::external_body]
pub(crate) fn new_object() -> (o: Object<String, Value>)
    ensures
        fields(o) == no_fields(),
{
    Object::new()
}

/// `serde_json::Map::insert` of a text: sets the field, whether or not it was
/// there.
#[verifier::external_body]
pub(crate) fn put_text(o: &mut Object<String, Value>, key: &str, value: &str)
    ensures
        fields(*final(o)) == fields(*old(o)).insert(key@, FieldView::Text(value@)),
{
    o.insert(key.to_string(), Value::from(value));
}

/// `serde_json::Map::insert` of an unsigned number: sets the field, whether or
/// not it was there.
#[verifier::external_body]
pub(crate) fn put_number(o: &mut Object<String, Value>, key: &str, value: u64)
    ensures
        fields(*final(o)) == fields(*old(o)).insert(key@, FieldView::Number(value as int)),
{
    o.insert(key.to_string(), Value::from(value));
}

/// `serde_json::Map::insert` of a signed number: sets the field, whether or not
/// it was there.
#[verifier::external_body]
pub(crate) fn put_signed(o: &mut Object<String, Value>, key: &str, value: i64)
    ensures
        fields(*final(o)) == fields(*old(o)).insert(key@, FieldView::Number(value as int)),
{
    o.insert(key.to_string(), Value::from(value));
}

/// `serde_json::Map::insert` of a truth value: sets the field, whether or not
/// it was there.
#[verifier::external_body]
pub(crate) fn put_flag(o: &mut Object<String, Value>, key: &str, value: bool)
    ensures
        fields(*final(o)) == fields(*old(o)).insert(key@, FieldView::Flag(value)),
{
    o.insert(key.to_string(), Value::from(value));
}

/// `serde_json::Map::insert` of `null`: sets the field, whether or not it was
/// there.
#[verifier::external_body]
pub(crate) fn put_null(o: &mut Object<String, Value>, key: &str)
    ensures
        fields(*final(o)) == fields(*old(o)).insert(key@, FieldView::Null),
{
    o.insert(key.to_string(), Value::Null);
}

/// `serde_json::to_string` of an object. The text is named. Writing fails only
/// for keys that are not texts and for types that refuse to be written; an
/// object has neither.
#[verifier::external_body]
pub(crate) fn write_object(o: &Object<String, Value>) -> (s: String)
    ensures
        s@ == object_text(fields(*o)),
{
    serde_json::to_string(o).expect("objects can always be written")
}

/// The text that `serde_json` reads under a key of an object; `None` where the
/// text is not valid JSON or no object, or has no text under that key.
pub uninterp spec fn text_field(raw: Seq<char>, key: Seq<char>) -> Option<Seq<char>>;

/// `serde_json::from_str` into a `serde_json::Value`, of which the text under a
/// key is taken. What is read is named; it depends on the text and the key alone.
#[verifier::external_body]
pub(crate) fn read_text_field(raw: &str, key: &str) -> (r: Option<String>)
    ensures
        text::opt_text(r) == text_field(raw@, key@),
{
    let value = serde_json::from_str::<Value>(raw).ok()?;
    value.get(key)?.as_str().map(str::to_owned)
}

} // verus!
