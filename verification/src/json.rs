//! JSON values, as `serde_json` reads, holds and writes them.
use vstd::prelude::*;
use vstd::string::*;

use crate::text;

verus! {

/// What a JSON value holds.
pub enum JsonView {
    Null,
    Bool(bool),
    /// A number, by its text.
    Number(Seq<char>),
    Text(Seq<char>),
    Array(Seq<JsonView>),
    Object(Map<Seq<char>, JsonView>),
}

impl JsonView {
    /// The member of an object under a key.
    pub open spec fn member(self, key: Seq<char>) -> Option<JsonView> {
        match self {
            JsonView::Object(members) => if members.contains_key(key) {
                Some(members[key])
            } else {
                None
            },
            _ => None,
        }
    }

    /// The text that the value is.
    pub open spec fn text(self) -> Option<Seq<char>> {
        match self {
            JsonView::Text(text) => Some(text),
            _ => None,
        }
    }

    /// The text that an object has under a key.
    pub open spec fn text_at(self, key: Seq<char>) -> Option<Seq<char>> {
        match self.member(key) {
            Some(value) => value.text(),
            None => None,
        }
    }

    /// The items of an array.
    pub open spec fn items(self) -> Option<Seq<JsonView>> {
        match self {
            JsonView::Array(items) => Some(items),
            _ => None,
        }
    }

    /// The value with a member put under a key, where it is an object; null counts as
    /// an object without members.
    pub open spec fn with_member(self, key: Seq<char>, member: JsonView) -> JsonView {
        match self {
            JsonView::Object(members) => JsonView::Object(members.insert(key, member)),
            JsonView::Null => JsonView::Object(map![key => member]),
            _ => self,
        }
    }

    /// The value with a text put under a key.
    pub open spec fn with_text(self, key: Seq<char>, text: Seq<char>) -> JsonView {
        self.with_member(key, JsonView::Text(text))
    }
}

/// `serde_json::Value`: a JSON value.
#[verifier::external_type_specification]
#[verifier::external_body]
pub struct ExValue(serde_json::Value);

/// What a `serde_json::Value` holds.
pub uninterp spec fn content(value: serde_json::Value) -> JsonView;

/// What `serde_json::from_str::<Value>` reads from a text; `None` where it fails.
pub uninterp spec fn parsed_json(text: Seq<char>) -> Option<JsonView>;

/// What `serde_json::to_string` writes for a value.
pub uninterp spec fn written_json(value: JsonView) -> Seq<char>;

/// Whether `serde_json::from_str::<&RawValue>` accepts a text.
pub uninterp spec fn is_raw_json(text: Seq<char>) -> bool;

/// What the values of a sequence hold.
pub open spec fn contents(values: Seq<serde_json::Value>) -> Seq<JsonView> {
    Seq::new(values.len(), |i: int| content(values[i]))
}

/// `Value::as_str`: the text that the value is, and `None` where it is no text.
pub assume_specification[ serde_json::Value::as_str ](value: &serde_json::Value) -> (r: Option<
    &str,
>)
    ensures
        match r {
            Some(text) => content(*value) == JsonView::Text(text@),
            None => content(*value).text() is None,
        },
;

/// `Value::as_array`: the items of an array, and `None` where the value is none.
pub assume_specification[ serde_json::Value::as_array ](value: &serde_json::Value) -> (r: Option<
    &Vec<serde_json::Value>,
>)
    ensures
        match r {
            Some(items) => content(*value) == JsonView::Array(contents(items@)),
            None => content(*value).items() is None,
        },
;

/// Calls `Value::get` with a text: the member of an object under that key, and
/// `None` where there is none or the value is no object.
#[verifier::external_body]
pub(crate) fn member<'a>(value: &'a serde_json::Value, key: &str) -> (r: Option<
    &'a serde_json::Value,
>)
    ensures
        match r {
            Some(found) => content(*value).member(key@) == Some(content(*found)),
            None => content(*value).member(key@) is None,
        },
{
    value.get(key)
}

/// Assigns through `Value::index_mut`: an object has the member under the key
/// afterwards, and its other members as before; null becomes an object with that
/// member.
#[verifier::external_body]
pub(crate) fn put(value: &mut serde_json::Value, key: &str, member: serde_json::Value)
    requires
        content(*old(value)) is Object || content(*old(value)) is Null,
    ensures
        content(*final(value)) == content(*old(value)).with_member(key@, content(member)),
{
    value[key] = member;
}

/// Calls `Value::from` on an optional text: the text, or null.
#[verifier::external_body]
pub(crate) fn text_or_null(text: Option<String>) -> (r: serde_json::Value)
    ensures
        content(r) == match text {
            Some(text) => JsonView::Text(text@),
            None => JsonView::Null,
        },
{
    serde_json::Value::from(text)
}

/// Calls `Value::from` on texts: the array of them.
#[verifier::external_body]
pub(crate) fn array_of_texts(items: Vec<String>) -> (r: serde_json::Value)
    ensures
        content(r) == JsonView::Array(
            Seq::new(items@.len(), |i: int| JsonView::Text(items@[i]@)),
        ),
{
    serde_json::Value::from(items)
}

/// Puts a text under a key of an object.
pub(crate) fn put_text(value: &mut serde_json::Value, key: &str, text: &str)
    requires
        content(*old(value)) is Object || content(*old(value)) is Null,
    ensures
        content(*final(value)) == content(*old(value)).with_text(key@, text@),
{
    put(value, key, text_or_null(Some(text.to_owned())));
}

/// Calls `serde_json::from_str::<Value>`. What it reads depends on the text alone.
#[verifier::external_body]
pub(crate) fn read_json(text: &str) -> (r: Option<serde_json::Value>)
    ensures
        match r {
            Some(value) => parsed_json(text@) == Some(content(value)),
            None => parsed_json(text@) is None,
        },
{
    serde_json::from_str(text).ok()
}

/// The key that `serde_json` keeps to itself: an object that starts with it is read as
/// what the text under it holds.
pub open spec fn reserved_key() -> Seq<char> {
    "$serde_json::private::RawValue"@
}

/// Whether a written value that can be read again has the texts that the value had, but
/// for one with the reserved key.
pub open spec fn keeps_texts(written: Seq<char>, value: JsonView) -> bool {
    value.member(reserved_key()) is None ==> match parsed_json(written) {
        Some(back) => forall|key: Seq<char>| #[trigger]
            value.text_at(key) is Some ==> back.text_at(key) == value.text_at(key),
        None => true,
    }
}

/// Calls `serde_json::to_string` on a `Value`, which does not fail. What it writes
/// depends on what the value holds alone. Where that is read again, the texts of an
/// object are the same. That it can be read again is not said, as a value that is
/// nested deeply cannot, nor that its numbers stay the same.
#[verifier::external_body]
pub(crate) fn write_json(value: &serde_json::Value) -> (r: Option<String>)
    ensures
        text::opt_text(r) == Some(written_json(content(*value))),
        r matches Some(written) ==> keeps_texts(written@, content(*value)),
{
    serde_json::to_string(value).ok()
}

/// Calls `serde_json::from_str::<&RawValue>`. Whether it succeeds depends on the
/// text alone.
#[verifier::external_body]
pub(crate) fn reads_as_raw(text: &str) -> (r: bool)
    ensures
        r == is_raw_json(text@),
{
    serde_json::from_str::<&serde_json::value::RawValue>(text).is_ok()
}

/// The text that an object has under a key.
pub fn text_member<'a>(value: &'a serde_json::Value, key: &str) -> (r: Option<&'a str>)
    ensures
        match r {
            Some(text) => content(*value).text_at(key@) == Some(text@),
            None => content(*value).text_at(key@) is None,
        },
{
    match member(value, key) {
        Some(found) => found.as_str(),
        None => None,
    }
}

/// A member that was put is found under its key, and every other as before.
pub proof fn members_are_found_where_they_were_put(
    value: JsonView,
    key: Seq<char>,
    member: JsonView,
    other: Seq<char>,
    said: Seq<char>,
)
    requires
        value is Object || value is Null,
    ensures
        value.with_member(key, member).member(key) == Some(member),
        other != key ==> value.with_member(key, member).member(other) == value.member(other),
        value.with_text(key, said).text_at(key) == Some(said),
        other != key ==> value.with_text(key, said).text_at(other) == value.text_at(other),
{
}

} // verus!
