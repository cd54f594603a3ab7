//! What one input item does to a conversation, field by field.
use vstd::prelude::*;

use crate::call_laws::only_white_space;
use crate::content::{chat_content, chat_message, contentless_item};
use crate::conversation::{
    Conversation, ConversationState, all_answered_calls, all_made_calls, answered_call, call_ids,
    made_calls, replayed_arguments, started, tool_call,
};

use crate::json::{Json, json_text};
use crate::literals::lemma_literals;
use crate::session::{SessionStore, turn_key, turn_member, turn_members};
use crate::tool_laws::{input_field, lemma_contains_both};
use crate::tool_names::{ToolId, replayed_name};
use crate::transcript_laws::{call_id_of, gives_output, makes_call};
use crate::types::Message;

verus! {

/// The model of a conversation has each part of its state.
pub proof fn a_conversation_shows_its_state(c: ConversationState)
    ensures
        c@.messages.len() == c.messages@.len(),
        forall|i: int| 0 <= i < c.messages@.len() ==> c@.messages[i] == (#[trigger] c.messages@[i])@,
        c@.calls.len() == c.calls@.len(),
        forall|i: int| 0 <= i < c.calls@.len() ==> c@.calls[i] == (#[trigger] c.calls@[i])@,
        c@.seen_calls == c.seen_calls@,
        c@.seen_outputs == c.seen_outputs@,
        c.fallback is None <==> c@.fallback is None,
        c.fallback matches Some(m) ==> c@.fallback == Some(m@),
        c.reasoning is None <==> c@.reasoning is None,
        c.reasoning matches Some(s) ==> c@.reasoning == Some(s@),
{
}

/// Items are taken one after the other.
pub proof fn items_are_taken_one_by_one(
    c: Conversation,
    a: Seq<Json>,
    b: Seq<Json>,
    item: Json,
    custom: Map<Seq<char>, ToolId>,
    sessions: SessionStore,
)
    ensures
        c.after_items(Seq::empty(), custom, sessions) == c,
        c.after_items(seq![item], custom, sessions) == c.after_item(item, custom, sessions),
        c.after_items(a + b, custom, sessions) == c.after_items(a, custom, sessions).after_items(
            b,
            custom,
            sessions,
        ),
    decreases b.len(),
{
    let one = seq![item];
    assert(one.drop_last() =~= Seq::empty());
    assert(one.last() == item);
    assert(c.after_items(one.drop_last(), custom, sessions) == c);
    if b.len() == 0 {
        assert(a + b =~= a);
    } else {
        assert((a + b).drop_last() =~= a + b.drop_last());
        items_are_taken_one_by_one(c, a, b.drop_last(), item, custom, sessions);
    }
}

/// Whether an item is a message that is taken into the conversation.
pub open spec fn is_said(item: Json) -> bool {
    &&& !makes_call(item)
    &&& !gives_output(item)
    &&& item.str_at("type"@) != Some("reasoning"@)
    &&& !contentless_item(item)
}

/// A message item, unless it is one of the system, adds one message after the
/// gathered calls: with its role and content and nothing else, but that an
/// assistant message has the reasoning stored for it, if any is.
pub proof fn a_message_item_adds_one_message(
    c: Conversation,
    item: Json,
    custom: Map<Seq<char>, ToolId>,
    sessions: SessionStore,
)
    requires
        is_said(item),
        item.str_at("role"@) != Some("system"@),
        item.str_at("role"@) != Some("developer"@),
    ensures
        ({
            let before = c.flushed(sessions);
            let after = c.after_item(item, custom, sessions);
            let m = after.messages[before.messages.len() as int];
            let role = match item.str_at("role"@) {
                Some(role) => role,
                None => "user"@,
            };
            &&& after.messages.len() == before.messages.len() + 1
            &&& forall|i: int|
                0 <= i < before.messages.len() ==> #[trigger] after.messages[i]
                    == before.messages[i]
            &&& m.role == role
            &&& m.content == chat_content(item.get("content"@))
            &&& m.tool_calls is None
            &&& m.tool_call_id is None
            &&& m.name is None
            &&& m.reasoning_content == if role == "assistant"@ {
                sessions.turn_reasoning(before.messages, chat_message(item))
            } else {
                None
            }
            &&& after.fallback == before.fallback
            &&& after.seen_calls == before.seen_calls
            &&& after.seen_outputs == before.seen_outputs
            &&& after.calls == before.calls
            &&& after.reasoning == before.reasoning
        }),
{
    lemma_literals();
}

/// A message item of the system or the developer goes to the front, in place
/// of a system message there, and changes nothing else.
pub proof fn a_system_item_goes_to_the_front(
    c: Conversation,
    item: Json,
    custom: Map<Seq<char>, ToolId>,
    sessions: SessionStore,
)
    requires
        is_said(item),
        item.str_at("role"@) == Some("system"@) || item.str_at("role"@) == Some("developer"@),
    ensures
        ({
            let before = c.flushed(sessions);
            let after = c.after_item(item, custom, sessions);
            let had = before.messages.len() > 0 && before.messages[0].role == "system"@;
            let m = after.messages[0];
            &&& after.messages.len() == before.messages.len() + (if had {
                0int
            } else {
                1int
            })
            &&& m.role == "system"@
            &&& m.content == chat_content(item.get("content"@))
            &&& m.reasoning_content is None
            &&& m.tool_calls is None
            &&& m.tool_call_id is None
            &&& m.name is None
            &&& forall|i: int|
                0 < i < after.messages.len() ==> #[trigger] after.messages[i]
                    == before.messages[if had {
                    i
                } else {
                    i - 1
                }]
            &&& after.fallback == before.fallback
            &&& after.seen_calls == before.seen_calls
            &&& after.seen_outputs == before.seen_outputs
            &&& after.calls == before.calls
            &&& after.reasoning == before.reasoning
        }),
{
    lemma_literals();
}

/// The output of a call adds one tool message after the gathered calls, with
/// the ID of the call and the output, unless the call is answered already.
pub proof fn an_output_item_adds_one_message(
    c: Conversation,
    item: Json,
    custom: Map<Seq<char>, ToolId>,
    sessions: SessionStore,
)
    requires
        gives_output(item),
    ensures
        ({
            let before = c.flushed(sessions);
            let after = c.after_item(item, custom, sessions);
            let id = call_id_of(item);
            let m = after.messages[before.messages.len() as int];
            let text = match item.get("output"@) {
                Some(Json::String(text)) => text,
                Some(value) => json_text(value),
                None => Seq::empty(),
            };
            &&& c.seen_outputs.contains(id) ==> after == before
            &&& !c.seen_outputs.contains(id) ==> {
                &&& after.messages.len() == before.messages.len() + 1
                &&& forall|i: int|
                    0 <= i < before.messages.len() ==> #[trigger] after.messages[i]
                        == before.messages[i]
                &&& m.role == "tool"@
                &&& m.content == Some(Json::String(text))
                &&& m.tool_call_id == Some(id)
                &&& m.tool_calls is None
                &&& m.reasoning_content is None
                &&& m.name is None
                &&& after.fallback == before.fallback
                &&& after.seen_calls == before.seen_calls
                &&& after.seen_outputs == before.seen_outputs.insert(id)
                &&& after.calls == before.calls
                &&& after.reasoning == before.reasoning
            }
        }),
{
    lemma_literals();
    assert(!contentless_item(item));
}

/// A call item adds its call to those that are gathered, with the reasoning
/// stored for it where there is none yet, unless the call is there already.
pub proof fn a_call_item_is_gathered(
    c: Conversation,
    item: Json,
    custom: Map<Seq<char>, ToolId>,
    sessions: SessionStore,
)
    requires
        makes_call(item),
    ensures
        ({
            let after = c.after_item(item, custom, sessions);
            let id = call_id_of(item);
            &&& c.seen_calls.contains(id) ==> after == c
            &&& !c.seen_calls.contains(id) ==> {
                &&& after.messages == c.messages
                &&& after.calls == c.calls.push(
                    tool_call(id, replayed_name(item), replayed_arguments(item, custom)),
                )
                &&& after.reasoning == match c.reasoning {
                    Some(text) => Some(text),
                    None => if sessions.by_call().contains_key(id) {
                        Some(sessions.by_call()[id])
                    } else {
                        None
                    },
                }
                &&& after.seen_calls == c.seen_calls.insert(id)
                &&& after.seen_outputs == c.seen_outputs
                &&& after.fallback == c.fallback
            }
        }),
{
    lemma_literals();
    assert(!contentless_item(item));
}

/// A tool call has an ID, the type of a function, and a name and arguments.
pub proof fn a_tool_call_has_its_parts(id: Seq<char>, name: Seq<char>, arguments: Seq<char>)
    ensures
        ({
            let call = tool_call(id, name, arguments);
            let function = call.get("function"@)->0;
            &&& call.get("id"@) == Some(Json::String(id))
            &&& call.get("type"@) == Some(Json::String("function"@))
            &&& forall|k: Seq<char>| #[trigger]
                call.get(k) is Some <==> k == "id"@ || k == "type"@ || k == "function"@
            &&& function.get("name"@) == Some(Json::String(name))
            &&& function.get("arguments"@) == Some(Json::String(arguments))
            &&& forall|k: Seq<char>| #[trigger]
                function.get(k) is Some <==> k == "name"@ || k == "arguments"@
        }),
{
    lemma_literals();
}

/// The arguments of a replayed function call are those of the item, or an
/// empty object where there are none or they are blank. Those of a custom call
/// have the input as their only member, under the declared field.
pub proof fn replayed_calls_keep_their_arguments(item: Json, custom: Map<Seq<char>, ToolId>)
    requires
        makes_call(item),
    ensures
        item.str_at("type"@) == Some("function_call"@) ==> replayed_arguments(item, custom)
            == match item.str_at("arguments"@) {
            Some(arguments) => if only_white_space(arguments) {
                "{}"@
            } else {
                arguments
            },
            None => "{}"@,
        },
        item.str_at("type"@) == Some("custom_tool_call"@) ==> replayed_arguments(item, custom) == {
            let name = replayed_name(item);
            let field = if custom.contains_key(name) {
                custom[name].1
            } else {
                input_field(name)
            };
            let input = match item.str_at("input"@) {
                Some(input) => input,
                None => ""@,
            };
            json_text(
                Json::Object(Map::<Seq<char>, Json>::empty().insert(field, Json::String(input))),
            )
        },
{
    lemma_literals();
}

/// A message without content is only kept in mind, and reasoning only ends the
/// gathering of calls.
pub proof fn other_items_add_nothing(
    c: Conversation,
    item: Json,
    custom: Map<Seq<char>, ToolId>,
    sessions: SessionStore,
)
    ensures
        contentless_item(item) ==> {
            let after = c.after_item(item, custom, sessions);
            &&& after.messages == c.messages
            &&& after.fallback == Some(chat_message(item))
            &&& after.calls == c.calls
            &&& after.reasoning == c.reasoning
            &&& after.seen_calls == c.seen_calls
            &&& after.seen_outputs == c.seen_outputs
        },
        item.str_at("type"@) == Some("reasoning"@) ==> c.after_item(item, custom, sessions)
            == c.flushed(sessions),
{
    lemma_literals();
}

/// The gathered calls, where there are any, become one assistant message that
/// makes all of them, in their order, and has their reasoning or else that of
/// the turn. Nothing else changes.
pub proof fn gathered_calls_become_one_message(c: Conversation, sessions: SessionStore)
    ensures
        ({
            let after = c.flushed(sessions);
            let m = after.messages[c.messages.len() as int];
            &&& c.calls.len() == 0 ==> after == c
            &&& c.calls.len() > 0 ==> {
                &&& after.messages.len() == c.messages.len() + 1
                &&& forall|i: int|
                    0 <= i < c.messages.len() ==> #[trigger] after.messages[i] == c.messages[i]
                &&& m.role == "assistant"@
                &&& m.content is None
                &&& m.tool_calls == Some(c.calls)
                &&& m.tool_call_id is None
                &&& m.name is None
                &&& c.reasoning is Some ==> m.reasoning_content == c.reasoning
                &&& c.reasoning is None ==> m.reasoning_content == sessions.turn_reasoning(
                    c.messages,
                    Message { reasoning_content: None, ..m },
                )
                &&& after.calls.len() == 0
                &&& after.reasoning is None
                &&& after.seen_calls == c.seen_calls
                &&& after.seen_outputs == c.seen_outputs
                &&& after.fallback == c.fallback
            }
        }),
{
    if c.calls.len() > 0 && c.reasoning is None {
        let m = c.flushed(sessions).messages[c.messages.len() as int];
        assert(crate::conversation::calling_message(c.calls, None) == Message {
            reasoning_content: None,
            ..m
        });
    }
}

/// A conversation starts with its messages, and knows the calls that they make
/// or answer.
pub proof fn a_conversation_starts_with_its_messages(
    messages: Seq<Message>,
    fallback: Option<Message>,
    id: Seq<char>,
)
    ensures
        started(messages, fallback).messages == messages,
        started(messages, fallback).fallback == fallback,
        started(messages, fallback).calls.len() == 0,
        started(messages, fallback).reasoning is None,
        started(messages, fallback).seen_outputs.contains(id) <==> exists|i: int|
            0 <= i < messages.len() && (#[trigger] messages[i]).tool_call_id == Some(id),
        started(messages, fallback).seen_calls.contains(id) <==> (exists|i: int|
            0 <= i < messages.len() && (#[trigger] messages[i]).tool_call_id == Some(id)) || (
        exists|i: int| 0 <= i < messages.len() && #[trigger] makes_call_with(messages[i], id)),
{
    lemma_made_contains(messages, id);
    lemma_answered_contains(messages, id);
}

/// Whether a message makes a call with this ID.
pub open spec fn makes_call_with(m: Message, id: Seq<char>) -> bool {
    m.tool_calls matches Some(calls) && exists|i: int|
        0 <= i < calls.len() && (#[trigger] calls[i]).str_at("id"@) == Some(id)
}

proof fn lemma_call_ids_contains(calls: Seq<Json>, id: Seq<char>)
    ensures
        call_ids(calls).contains(id) <==> exists|i: int|
            0 <= i < calls.len() && (#[trigger] calls[i]).str_at("id"@) == Some(id),
    decreases calls.len(),
{
    if calls.len() > 0 {
        let rest = calls.drop_last();
        let n = calls.len() - 1;
        lemma_call_ids_contains(rest, id);
        assert(calls[n] == calls.last());
        if let Some(last) = calls.last().str_at("id"@) {
            let one = seq![last];
            assert(call_ids(calls) =~= call_ids(rest) + one);
            lemma_contains_both(call_ids(rest), one, id);
            assert(one.contains(id) <==> last == id) by {
                assert(one[0] == last);
            }
        }
        if call_ids(rest).contains(id) {
            let i = choose|i: int|
                0 <= i < rest.len() && (#[trigger] rest[i]).str_at("id"@) == Some(id);
            assert(calls[i] == rest[i]);
        }
        if exists|i: int| 0 <= i < calls.len() && (#[trigger] calls[i]).str_at("id"@) == Some(id) {
            let i = choose|i: int|
                0 <= i < calls.len() && (#[trigger] calls[i]).str_at("id"@) == Some(id);
            if i < n {
                assert(rest[i] == calls[i]);
            }
        }
    }
}

proof fn lemma_made_contains(messages: Seq<Message>, id: Seq<char>)
    ensures
        all_made_calls(messages).contains(id) <==> exists|i: int|
            0 <= i < messages.len() && #[trigger] makes_call_with(messages[i], id),
    decreases messages.len(),
{
    if messages.len() > 0 {
        let rest = messages.drop_last();
        let last = messages.last();
        let n = messages.len() - 1;
        lemma_made_contains(rest, id);
        assert(messages[n] == last);
        assert(all_made_calls(messages) == all_made_calls(rest) + made_calls(last));
        lemma_contains_both(all_made_calls(rest), made_calls(last), id);
        if let Some(calls) = last.tool_calls {
            lemma_call_ids_contains(calls, id);
        }
        assert(made_calls(last).contains(id) <==> makes_call_with(last, id));
        if all_made_calls(rest).contains(id) {
            let i = choose|i: int| 0 <= i < rest.len() && #[trigger] makes_call_with(rest[i], id);
            assert(makes_call_with(messages[i], id));
        }
        if made_calls(last).contains(id) {
            assert(makes_call_with(messages[n], id));
        }
        if exists|i: int| 0 <= i < messages.len() && #[trigger] makes_call_with(messages[i], id) {
            let i = choose|i: int|
                0 <= i < messages.len() && #[trigger] makes_call_with(messages[i], id);
            if i < n {
                assert(makes_call_with(rest[i], id));
            }
        }
    }
}

proof fn lemma_answered_contains(messages: Seq<Message>, id: Seq<char>)
    ensures
        all_answered_calls(messages).contains(id) <==> exists|i: int|
            0 <= i < messages.len() && (#[trigger] messages[i]).tool_call_id == Some(id),
    decreases messages.len(),
{
    if messages.len() > 0 {
        let rest = messages.drop_last();
        let last = messages.last();
        let n = messages.len() - 1;
        lemma_answered_contains(rest, id);
        assert(messages[n] == last);
        assert(all_answered_calls(messages) == all_answered_calls(rest) + answered_call(last));
        lemma_contains_both(all_answered_calls(rest), answered_call(last), id);
        assert(answered_call(last).contains(id) <==> last.tool_call_id == Some(id)) by {
            if let Some(own) = last.tool_call_id {
                let one = seq![own];
                assert(one[0] == own);
            }
        }
        if all_answered_calls(rest).contains(id) {
            let i = choose|i: int|
                0 <= i < rest.len() && (#[trigger] rest[i]).tool_call_id == Some(id);
            assert(messages[i] == rest[i]);
        }
        if exists|i: int|
            0 <= i < messages.len() && (#[trigger] messages[i]).tool_call_id == Some(id) {
            let i = choose|i: int|
                0 <= i < messages.len() && (#[trigger] messages[i]).tool_call_id == Some(id);
            if i < n {
                assert(rest[i] == messages[i]);
            }
        }
    }
}

/// A call ID is among the made calls of some messages exactly when one of them
/// makes a call with it, and among the answered ones exactly when one of them
/// answers it.
pub proof fn calls_are_found_in_messages(messages: Seq<Message>, id: Seq<char>)
    ensures
        all_made_calls(messages).contains(id) <==> exists|i: int|
            0 <= i < messages.len() && #[trigger] makes_call_with(messages[i], id),
        all_answered_calls(messages).contains(id) <==> exists|i: int|
            0 <= i < messages.len() && (#[trigger] messages[i]).tool_call_id == Some(id),
{
    lemma_made_contains(messages, id);
    lemma_answered_contains(messages, id);
}

/// What identifies a turn tells two messages apart by everything but their
/// reasoning, which does not count. (No content and `null` are the same, and
/// so are no calls and `null`.)
pub proof fn turns_are_told_apart(a: Message, b: Message)
    ensures
        a.role != b.role || a.tool_call_id != b.tool_call_id || a.name != b.name || a.tool_calls
            != b.tool_calls ==> turn_member(a) != turn_member(b),
        a.content is Some && b.content is Some && a.content != b.content ==> turn_member(a)
            != turn_member(b),
        a == (Message { reasoning_content: a.reasoning_content, ..b }) ==> turn_member(a)
            == turn_member(b),
{
    lemma_literals();
    let x = turn_member(a);
    let y = turn_member(b);
    if x == y {
        assert(x.get("role"@) == Some(Json::String(a.role)));
        assert(y.get("role"@) == Some(Json::String(b.role)));
        assert(x.get("content"@) == y.get("content"@));
        assert(x.get("tool_calls"@) == y.get("tool_calls"@));
        assert(x.get("tool_call_id"@) == y.get("tool_call_id"@));
        assert(x.get("name"@) == y.get("name"@));
        assert(x.get("content"@) == Some(
            match a.content {
                Some(v) => v,
                None => Json::Null,
            },
        ));
        assert(y.get("content"@) == Some(
            match b.content {
                Some(v) => v,
                None => Json::Null,
            },
        ));
    }
}

/// What identifies a turn has one part for each message before it, in their
/// order, and one for the assistant message.
pub proof fn a_turn_is_all_that_came_before(prior: Seq<Message>, assistant: Message, i: int)
    requires
        0 <= i < prior.len(),
    ensures
        turn_members(prior, assistant).len() == prior.len() + 1,
        turn_members(prior, assistant)[i] == turn_member(prior[i]),
        turn_members(prior, assistant)[prior.len() as int] == turn_member(assistant),
        turn_key(prior, assistant) == json_text(Json::Array(turn_members(prior, assistant))),
{
}

/// The reasoning that a store has for a call or a turn is the one that stands
/// under its ID or its key, and none where nothing stands there.
pub proof fn stored_reasoning_is_found(
    sessions: SessionStore,
    call_id: Seq<char>,
    prior: Seq<Message>,
    assistant: Message,
)
    ensures
        sessions.by_call().contains_key(call_id) ==> sessions.call_reasoning(call_id) == Some(
            sessions.by_call()[call_id],
        ),
        !sessions.by_call().contains_key(call_id) ==> sessions.call_reasoning(call_id) is None,
        sessions.by_turn().contains_key(turn_key(prior, assistant)) ==> sessions.turn_reasoning(
            prior,
            assistant,
        ) == Some(sessions.by_turn()[turn_key(prior, assistant)]),
        !sessions.by_turn().contains_key(turn_key(prior, assistant)) ==> sessions.turn_reasoning(
            prior,
            assistant,
        ) is None,
{
}

} // verus!
