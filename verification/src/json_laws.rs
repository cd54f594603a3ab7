//! What is found in JSON values.
use vstd::prelude::*;

use crate::json::{Json, JsonValue, jsons_of};
use crate::types::{ChatMessage, messages_of};

verus! {

/// A member is found under its key and no other, and only in an object.
pub proof fn members_are_found_under_their_keys(
    members: Map<Seq<char>, Json>,
    key: Seq<char>,
    v: Json,
)
    ensures
        members.contains_key(key) ==> Json::Object(members).get(key) == Some(members[key]),
        !members.contains_key(key) ==> Json::Object(members).get(key) is None,
        !(v is Object) ==> v.get(key) is None,
{
}

/// A text is found under a key exactly where a string stands there, and a list
/// exactly where an array does; else another text, or nothing, is given.
pub proof fn texts_and_lists_are_found_under_their_keys(
    v: Json,
    key: Seq<char>,
    other: Seq<char>,
    text: Seq<char>,
)
    ensures
        match v.get(key) {
            Some(Json::String(s)) => {
                &&& v.str_at(key) == Some(s)
                &&& v.str_or(key, other) == s
                &&& v.has_str(key, text) <==> s == text
            },
            _ => {
                &&& v.str_at(key) is None
                &&& v.str_or(key, other) == other
                &&& !v.has_str(key, text)
            },
        },
        match v.get(key) {
            Some(Json::Array(items)) => {
                &&& v.array_at(key) == Some(items)
                &&& v.items_at(key) == items
            },
            _ => {
                &&& v.array_at(key) is None
                &&& v.items_at(key).len() == 0
            },
        },
        v matches Json::String(s) ==> v.as_str() == Some(s),
        !(v is String) ==> v.as_str() is None,
        v matches Json::Object(m) ==> v.as_object() == Some(m),
        !(v is Object) ==> v.as_object() is None,
{
}

/// The model of a value is of its kind and has its content.
pub proof fn values_show_their_content(v: JsonValue)
    ensures
        match v {
            JsonValue::Null => v@ is Null,
            JsonValue::Bool(b) => v@ == Json::Bool(b),
            JsonValue::Number(n) => v@ == Json::Number(n),
            JsonValue::String(s) => v@ == Json::String(s@),
            JsonValue::Array(items) => v@ matches Json::Array(models) && models.len()
                == items@.len() && forall|i: int|
                0 <= i < items@.len() ==> models[i] == (#[trigger] items@[i])@,
            JsonValue::Object(m) => v@ == Json::Object(m@),
        },
{
}

/// The models of a list of values, and of messages, are theirs one for one.
pub proof fn lists_show_their_content(
    items: Seq<JsonValue>,
    messages: Seq<ChatMessage>,
    i: int,
    j: int,
)
    requires
        0 <= i < items.len(),
        0 <= j < messages.len(),
    ensures
        jsons_of(items).len() == items.len(),
        jsons_of(items)[i] == items[i]@,
        messages_of(messages).len() == messages.len(),
        messages_of(messages)[j] == messages[j]@,
{
}

} // verus!
