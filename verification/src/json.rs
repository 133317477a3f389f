//! What the library reads of a JSON value.

use serde_json::Value;
use vstd::prelude::*;

verus! {

/// Declares `serde_json::Value`. Nothing is known of a value but what `json_contents` says of it.
#[verifier::external_type_specification]
#[verifier::external_body]
pub struct ExValue(serde_json::Value);

/// A JSON value, as far as it is read here: text, lists and records. `null`, booleans and numbers
/// are all `Scalar`.
pub enum Json {
    Scalar,
    Text(Seq<char>),
    List(Seq<Json>),
    Record(Map<Seq<char>, Json>),
}

impl Json {
    /// The member of a record; `None` for a missing member and for anything but a record.
    pub open spec fn member(self, key: Seq<char>) -> Option<Json> {
        match self {
            Json::Record(members) => if members.contains_key(key) {
                Some(members[key])
            } else {
                None
            },
            _ => None,
        }
    }

    /// The member of a record, with `Scalar` in place of a missing one.
    pub open spec fn at(self, key: Seq<char>) -> Json {
        match self.member(key) {
            Some(json) => json,
            None => Json::Scalar,
        }
    }

    /// The characters of a text.
    pub open spec fn text(self) -> Option<Seq<char>> {
        match self {
            Json::Text(text) => Some(text),
            _ => None,
        }
    }

    /// The text of a member.
    pub open spec fn member_text(self, key: Seq<char>) -> Option<Seq<char>> {
        match self.member(key) {
            Some(json) => json.text(),
            None => None,
        }
    }

    /// The items of a list.
    pub open spec fn items(self) -> Option<Seq<Json>> {
        match self {
            Json::List(items) => Some(items),
            _ => None,
        }
    }
}

/// What a `serde_json::Value` holds: the string of a `String`, the values of an `Array` in order,
/// the values of an `Object` by key.
pub uninterp spec fn json_contents(value: Value) -> Json;

/// Calls `serde_json::Value::get` with a text index. It is the value stored under the key of an
/// `Object`, and `None` where the key is missing or the value is of another kind.
#[verifier::external_body]
pub(crate) fn json_member<'a>(value: &'a Value, key: &str) -> (member: Option<&'a Value>)
    ensures
        match member {
            Some(json) => json_contents(*value).member(key@) == Some(json_contents(*json)),
            None => json_contents(*value).member(key@) is None,
        },
{
    value.get(key)
}

/// Calls the indexing operator of `serde_json::Value` with a text index. It is the value stored
/// under the key of an `Object`, and `Value::Null` where the key is missing or the value is of
/// another kind; it does not panic.
#[verifier::external_body]
pub(crate) fn json_at<'a>(value: &'a Value, key: &str) -> (member: &'a Value)
    ensures
        json_contents(*member) == json_contents(*value).at(key@),
{
    &value[key]
}

/// Calls `serde_json::Value::as_str`. It is the string of a `String`, and `None` for a value of
/// another kind.
#[verifier::external_body]
pub(crate) fn json_text(value: &Value) -> (text: Option<&str>)
    ensures
        match text {
            Some(t) => json_contents(*value).text() == Some(t@),
            None => json_contents(*value).text() is None,
        },
{
    value.as_str()
}

/// Calls `serde_json::Value::as_array`. It is the vector of an `Array`, and `None` for a value of
/// another kind.
#[verifier::external_body]
pub(crate) fn json_items(value: &Value) -> (items: Option<&Vec<Value>>)
    ensures
        match items {
            Some(vec) => json_contents(*value).items() == Some(
                vec@.map_values(|item: Value| json_contents(item)),
            ),
            None => json_contents(*value).items() is None,
        },
{
    value.as_array()
}

} // verus!
