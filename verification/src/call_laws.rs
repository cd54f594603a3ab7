//! What is done to tool calls, part by part.
use vstd::prelude::*;

use crate::calls::{
    completed, completed_call, completed_message, custom_input, entries_error, entry_ids,
    entry_texts, input_or, one_member,
};
use crate::json::{Json, parsed_json};
use crate::literals::lemma_literals;
use crate::text::is_white_space;
use crate::types::{ChatMessage, Message};

verus! {

/// Whether a text has nothing but white space in it.
pub open spec fn only_white_space(s: Seq<char>) -> bool {
    forall|i: int| 0 <= i < s.len() ==> is_white_space(#[trigger] s[i])
}

/// Arguments that are not there, or hold nothing but white space, become an
/// empty object; others stay.
pub proof fn blank_arguments_become_an_empty_object(arguments: Seq<char>)
    ensures
        only_white_space(arguments) ==> completed(arguments) == "{}"@,
        !only_white_space(arguments) ==> completed(arguments) == arguments,
{
}

/// Completing a call changes nothing in it but the arguments in its `function`
/// member, and those only where they are not there or blank.
pub proof fn completing_a_call_gives_it_arguments(call: Json)
    ensures
        forall|k: Seq<char>|
            k != "function"@ ==> #[trigger] completed_call(call).get(k) == call.get(k),
        call.get("function"@) matches Some(before) ==> {
            let after = completed_call(call).get("function"@)->0;
            &&& completed_call(call).get("function"@) is Some
            &&& !(before is Object) ==> after == before
            &&& before is Object ==> {
                &&& forall|k: Seq<char>|
                    k != "arguments"@ ==> #[trigger] after.get(k) == before.get(k)
                &&& after.get("arguments"@) == match before.get("arguments"@) {
                    Some(Json::String(s)) => if only_white_space(s) {
                        Some(Json::String("{}"@))
                    } else {
                        Some(Json::String(s))
                    },
                    Some(other) => Some(other),
                    None => Some(Json::String("{}"@)),
                }
            }
        },
        call.get("function"@) is None ==> completed_call(call) == call,
{
    lemma_literals();
}

/// Completing a message completes its tool calls, one for one, and leaves the
/// rest of it.
pub proof fn completing_a_message_completes_its_calls(message: Message)
    ensures
        completed_message(message).role == message.role,
        completed_message(message).content == message.content,
        completed_message(message).reasoning_content == message.reasoning_content,
        completed_message(message).tool_call_id == message.tool_call_id,
        completed_message(message).name == message.name,
        completed_message(message).tool_calls is Some <==> message.tool_calls is Some,
        message.tool_calls matches Some(calls) ==> {
            let after = completed_message(message).tool_calls->0;
            &&& after.len() == calls.len()
            &&& forall|i: int|
                0 <= i < calls.len() ==> after[i] == completed_call(#[trigger] calls[i])
        },
{
}

/// The input of a custom tool is the text in its field of the arguments; where
/// they are no object with a text there, it is the arguments themselves.
pub proof fn custom_input_is_the_text_in_the_field(arguments: Seq<char>, field: Seq<char>)
    ensures
        custom_input(arguments, field) == match parsed_json(arguments) {
            Some(Json::Object(m)) => if m.contains_key(field) && m[field] is String {
                m[field]->String_0
            } else {
                arguments
            },
            _ => arguments,
        },
{
}

/// Of what was read, the text in the field is the input; else it is the
/// arguments themselves.
pub proof fn input_read_is_the_text_in_the_field(
    read: Option<Json>,
    arguments: Seq<char>,
    field: Seq<char>,
)
    ensures
        input_or(read, arguments, field) == match read {
            Some(Json::Object(m)) => if m.contains_key(field) && m[field] is String {
                m[field]->String_0
            } else {
                arguments
            },
            _ => arguments,
        },
{
}

/// The arguments that carry an input have it as their only member.
pub proof fn the_input_is_the_only_member(field: Seq<char>, value: Json, k: Seq<char>)
    ensures
        one_member(field, value).get(field) == Some(value),
        k != field ==> one_member(field, value).get(k) is None,
        one_member(field, value) is Object,
{
}

/// The calls that are checked are taken as pairs of an ID and a name, in their
/// order.
pub proof fn calls_are_pairs_of_id_and_name<'a>(entries: Seq<(&'a str, &'a str)>, i: int)
    requires
        0 <= i < entries.len(),
    ensures
        entry_texts(entries).len() == entries.len(),
        entry_texts(entries)[i].0 == entries[i].0@,
        entry_texts(entries)[i].1 == entries[i].1@,
{
}

/// The calls before one that has something wrong are right; which error comes
/// is decided by the first call that has something wrong: that it has no ID,
/// or one that stands before, or calls what may not be called.
pub proof fn the_first_wrong_call_decides(
    entries: Seq<(Seq<char>, Seq<char>)>,
    allowed: Set<Seq<char>>,
    i: int,
)
    requires
        0 <= i < entries.len(),
        entries_error(entries.take(i), allowed) is None,
    ensures
        ({
            let (id, name) = entries[i];
            let stands_before = exists|j: int| 0 <= j < i && (#[trigger] entries[j]).0 == id;
            let wrong = if id.len() == 0 {
                Some("upstream returned an empty tool call ID"@)
            } else if stands_before {
                Some("upstream returned duplicate tool call IDs"@)
            } else if name.len() == 0 || !allowed.contains(name) {
                Some("upstream returned an undeclared tool call"@)
            } else {
                None
            };
            &&& entries_error(entries.take(i + 1), allowed) == wrong
            &&& wrong is Some ==> entries_error(entries, allowed) == wrong
        }),
        entries_error(Seq::<(Seq<char>, Seq<char>)>::empty(), allowed) is None,
{
    let upto = entries.take(i + 1);
    let before = entries.take(i);
    let ids = entry_ids(before);
    let id = entries[i].0;
    assert(upto.drop_last() =~= before);
    assert(upto.last() == entries[i]);
    if ids.contains(id) {
        let j = choose|j: int| 0 <= j < ids.len() && ids[j] == id;
        assert(entries[j].0 == id);
    }
    if exists|j: int| 0 <= j < i && (#[trigger] entries[j]).0 == id {
        let j = choose|j: int| 0 <= j < i && (#[trigger] entries[j]).0 == id;
        assert(ids[j] == id);
    }
    if entries_error(upto, allowed) is Some {
        crate::calls::lemma_error_stays(entries, allowed, i + 1);
    }
}

/// The model of a message has each of its fields, and an empty list of calls
/// is not the same as none.
pub proof fn a_message_shows_its_fields(m: ChatMessage)
    ensures
        m@.role == m.role@,
        m.content is None <==> m@.content is None,
        m.content matches Some(v) ==> m@.content == Some(v@),
        m.reasoning_content is None <==> m@.reasoning_content is None,
        m.reasoning_content matches Some(s) ==> m@.reasoning_content == Some(s@),
        m.tool_calls is None <==> m@.tool_calls is None,
        m.tool_calls matches Some(calls) ==> m@.tool_calls->0.len() == calls@.len() && forall|i: int|
            0 <= i < calls@.len() ==> m@.tool_calls->0[i] == (#[trigger] calls@[i])@,
        m.tool_call_id is None <==> m@.tool_call_id is None,
        m.tool_call_id matches Some(s) ==> m@.tool_call_id == Some(s@),
        m.name is None <==> m@.name is None,
        m.name matches Some(s) ==> m@.name == Some(s@),
{
}

/// A plain message has a role and a content, and nothing else; its text is its
/// content where that is a string.
pub proof fn plain_messages_have_a_role_and_a_content(
    role: Seq<char>,
    content: Option<Json>,
    m: Message,
)
    ensures
        Message::plain(role, content).role == role,
        Message::plain(role, content).content == content,
        Message::plain(role, content).reasoning_content is None,
        Message::plain(role, content).tool_calls is None,
        Message::plain(role, content).tool_call_id is None,
        Message::plain(role, content).name is None,
        m.content matches Some(Json::String(s)) ==> m.text() == s,
        !(m.content matches Some(Json::String(_))) ==> m.text().len() == 0,
{
}

} // verus!
