//! What is said, called and answered in a conversation, in its order: all of
//! it reaches the upstream.
use vstd::prelude::*;

use crate::call_laws::only_white_space;
use crate::calls::completed_message;
use crate::content::{all_droppable, chat_message, contentless_item, droppable, with_content};
use crate::conversation::{
    Conversation, all_answered_calls, all_made_calls, output_message, replayed_arguments, started,
    tool_call, with_system_in_front,
};
use crate::env::RelayEnv;
use crate::items::{normalized_item, output_text};
use crate::json::{Json, jsons_of};
use crate::literals::lemma_literals;
use crate::request::{
    TranslateOptions, chat_messages, completed_messages, continued, input_items, newest_droppable,
    opening, outgoing, system_text, user_message,
};
use crate::session::SessionStore;
use crate::tool_names::{ToolId, custom_entries, last_wins, replayed_name};
use crate::types::{Message, ResponsesInput, ResponsesRequest};

verus! {

/// Something that happens in a conversation, apart from system messages.
pub enum Event {
    /// A message is said.
    Said(Seq<char>, Option<Json>),
    /// A tool is called.
    Called(Json),
    /// A call is answered.
    Answered(Seq<char>, Option<Json>),
}

/// The events of some tool calls.
pub open spec fn calling(calls: Seq<Json>) -> Seq<Event> {
    calls.map_values(|call: Json| Event::Called(call))
}

/// The events of a message: what it says, the calls that it makes, the call
/// that it answers. A system message, and one that can be left out, has none.
pub open spec fn events(m: Message) -> Seq<Event> {
    if m.role == "system"@ || droppable(m) {
        Seq::empty()
    } else {
        match m.tool_call_id {
            Some(id) => seq![Event::Answered(id, m.content)],
            None => match m.tool_calls {
                Some(calls) => if m.content is None {
                    calling(calls)
                } else {
                    seq![Event::Said(m.role, m.content)] + calling(calls)
                },
                None => seq![Event::Said(m.role, m.content)],
            },
        }
    }
}

/// The events of some messages, in their order.
pub open spec fn transcript(messages: Seq<Message>) -> Seq<Event>
    decreases messages.len(),
{
    if messages.len() == 0 {
        Seq::empty()
    } else {
        transcript(messages.drop_last()) + events(messages.last())
    }
}

/// Whether an item makes a tool call.
pub open spec fn makes_call(item: Json) -> bool {
    item.str_at("type"@) == Some("function_call"@) || item.str_at("type"@) == Some(
        "custom_tool_call"@,
    )
}

/// Whether an item is the output of a tool call.
pub open spec fn gives_output(item: Json) -> bool {
    item.str_at("type"@) == Some("function_call_output"@) || item.str_at("type"@) == Some(
        "custom_tool_call_output"@,
    )
}

/// The ID of the call that an item makes or answers, or nothing.
pub open spec fn call_id_of(item: Json) -> Seq<char> {
    match item.str_at("call_id"@) {
        Some(id) => id,
        None => ""@,
    }
}

/// Whether some item makes a call with this ID.
pub open spec fn called_in(items: Seq<Json>, id: Seq<char>) -> bool {
    exists|i: int|
        0 <= i < items.len() && makes_call(#[trigger] items[i]) && call_id_of(items[i]) == id
}

/// Whether some item answers the call with this ID.
pub open spec fn answered_in(items: Seq<Json>, id: Seq<char>) -> bool {
    exists|i: int|
        0 <= i < items.len() && gives_output(#[trigger] items[i]) && call_id_of(items[i]) == id
}

/// The event of an item after other items: a call or an output that is there
/// already has none, nor have reasoning, system messages, and messages that can
/// be left out.
pub open spec fn item_events(
    earlier: Seq<Json>,
    item: Json,
    called: Set<Seq<char>>,
    answered: Set<Seq<char>>,
    custom: Map<Seq<char>, ToolId>,
) -> Seq<Event> {
    let id = call_id_of(item);
    if makes_call(item) {
        if called.contains(id) || called_in(earlier, id) {
            Seq::empty()
        } else {
            seq![
                Event::Called(tool_call(id, replayed_name(item), replayed_arguments(item, custom))),
            ]
        }
    } else if gives_output(item) {
        if answered.contains(id) || answered_in(earlier, id) {
            Seq::empty()
        } else {
            seq![Event::Answered(id, Some(Json::String(output_text(item.get("output"@)))))]
        }
    } else if item.str_at("type"@) == Some("reasoning"@) {
        Seq::empty()
    } else {
        let m = chat_message(item);
        if m.role == "system"@ || droppable(m) {
            Seq::empty()
        } else {
            seq![Event::Said(m.role, m.content)]
        }
    }
}

/// The events of some items, in their order, where these calls are made and
/// these are answered already.
pub open spec fn items_transcript(
    items: Seq<Json>,
    called: Set<Seq<char>>,
    answered: Set<Seq<char>>,
    custom: Map<Seq<char>, ToolId>,
) -> Seq<Event>
    decreases items.len(),
{
    if items.len() == 0 {
        Seq::empty()
    } else {
        items_transcript(items.drop_last(), called, answered, custom) + item_events(
            items.drop_last(),
            items.last(),
            called,
            answered,
            custom,
        )
    }
}

proof fn lemma_transcript_push(messages: Seq<Message>, m: Message)
    ensures
        transcript(messages.push(m)) == transcript(messages) + events(m),
{
    assert(messages.push(m).drop_last() =~= messages);
}

proof fn lemma_transcript_both(a: Seq<Message>, b: Seq<Message>)
    ensures
        transcript(a + b) == transcript(a) + transcript(b),
    decreases b.len(),
{
    if b.len() == 0 {
        assert(a + b =~= a);
        assert(transcript(a) + transcript(b) =~= transcript(a));
    } else {
        assert((a + b).drop_last() =~= a + b.drop_last());
        lemma_transcript_both(a, b.drop_last());
        assert(transcript(a + b) =~= transcript(a) + transcript(b));
    }
}

proof fn lemma_transcript_one(m: Message)
    ensures
        transcript(seq![m]) == events(m),
{
    let one = seq![m];
    assert(one.drop_last() =~= Seq::empty());
    assert(one.last() == m);
    assert(transcript(one.drop_last()) =~= Seq::empty());
    assert(transcript(one) =~= events(m));
}

/// A system message in front has no events.
proof fn lemma_system_in_front(messages: Seq<Message>, m: Message)
    requires
        m.role == "system"@,
    ensures
        transcript(messages.insert(0, m)) == transcript(messages),
        transcript(with_system_in_front(messages, m)) == transcript(messages),
{
    lemma_transcript_one(m);
    assert(messages.insert(0, m) =~= seq![m] + messages);
    lemma_transcript_both(seq![m], messages);
    assert(transcript(messages.insert(0, m)) =~= transcript(messages));
    if messages.len() > 0 && messages[0].role == "system"@ {
        let rest = messages.skip(1);
        lemma_transcript_one(messages[0]);
        assert(messages =~= seq![messages[0]] + rest);
        assert(messages.update(0, m) =~= seq![m] + rest);
        lemma_transcript_both(seq![messages[0]], rest);
        lemma_transcript_both(seq![m], rest);
        assert(transcript(messages) =~= transcript(rest));
        assert(transcript(messages.update(0, m)) =~= transcript(rest));
    }
}

proof fn lemma_with_content_keeps_transcript(messages: Seq<Message>)
    ensures
        transcript(with_content(messages)) == transcript(messages),
    decreases messages.len(),
{
    reveal(Seq::filter);
    if messages.len() > 0 {
        let rest = messages.drop_last();
        let last = messages.last();
        lemma_with_content_keeps_transcript(rest);
        if droppable(last) {
            assert(transcript(messages) =~= transcript(rest));
        } else {
            lemma_transcript_push(with_content(rest), last);
        }
    }
}

/// The events of a conversation that is being put together.
pub open spec fn so_far(c: Conversation) -> Seq<Event> {
    transcript(c.messages) + calling(c.calls)
}

proof fn lemma_flush_keeps_events(c: Conversation, sessions: SessionStore)
    ensures
        so_far(c.flushed(sessions)) == so_far(c),
        transcript(c.flushed(sessions).messages) == so_far(c),
        c.flushed(sessions).calls.len() == 0,
{
    lemma_literals();
    let after = c.flushed(sessions);
    if c.calls.len() > 0 {
        let message = after.messages.last();
        assert(after.messages =~= c.messages.push(message));
        lemma_transcript_push(c.messages, message);
        assert(events(message) == calling(c.calls));
    }
    assert(calling(after.calls) =~= Seq::empty());
    assert(so_far(after) =~= so_far(c));
    assert(transcript(after.messages) =~= so_far(c));
}

/// A message without content among the items can be left out.
proof fn lemma_contentless_items_go(item: Json)
    requires
        contentless_item(item),
    ensures
        droppable(chat_message(item)),
        !makes_call(item),
        !gives_output(item),
        item.str_at("type"@) != Some("reasoning"@),
{
    lemma_literals();
    crate::content::lemma_blankness_stays(item.get("content"@));
}

proof fn lemma_item_adds_its_events(
    start: Conversation,
    earlier: Seq<Json>,
    c: Conversation,
    item: Json,
    custom: Map<Seq<char>, ToolId>,
    sessions: SessionStore,
)
    requires
        forall|id: Seq<char>| #[trigger]
            c.seen_calls.contains(id) <==> start.seen_calls.contains(id) || called_in(earlier, id),
        forall|id: Seq<char>| #[trigger]
            c.seen_outputs.contains(id) <==> start.seen_outputs.contains(id) || answered_in(
                earlier,
                id,
            ),
    ensures
        ({
            let after = c.after_item(item, custom, sessions);
            &&& so_far(after) == so_far(c) + item_events(
                earlier,
                item,
                start.seen_calls,
                start.seen_outputs,
                custom,
            )
            &&& forall|id: Seq<char>| #[trigger]
                after.seen_calls.contains(id) <==> start.seen_calls.contains(id) || called_in(
                    earlier.push(item),
                    id,
                )
            &&& forall|id: Seq<char>| #[trigger]
                after.seen_outputs.contains(id) <==> start.seen_outputs.contains(id) || answered_in(
                    earlier.push(item),
                    id,
                )
            &&& (c.fallback matches Some(m) ==> droppable(m)) ==> (after.fallback matches Some(m)
                ==> droppable(m))
        }),
{
    lemma_literals();
    let after = c.after_item(item, custom, sessions);
    let id = call_id_of(item);
    let all = earlier.push(item);
    let happened = item_events(earlier, item, start.seen_calls, start.seen_outputs, custom);
    if contentless_item(item) {
        lemma_contentless_items_go(item);
        assert(so_far(after) =~= so_far(c) + happened);
    } else if makes_call(item) {
        if c.seen_calls.contains(id) {
            assert(so_far(after) =~= so_far(c) + happened);
        } else {
            let call = tool_call(id, replayed_name(item), replayed_arguments(item, custom));
            assert(after.calls =~= c.calls.push(call));
            assert(calling(after.calls) =~= calling(c.calls).push(Event::Called(call)));
            assert(so_far(after) =~= so_far(c) + happened);
        }
    } else {
        lemma_flush_keeps_events(c, sessions);
        let flat = c.flushed(sessions);
        assert(after.calls == flat.calls);
        assert(calling(after.calls) =~= Seq::empty());
        if gives_output(item) {
            if !c.seen_outputs.contains(id) {
                let m = output_message(item);
                lemma_transcript_push(flat.messages, m);
                assert(events(m) == seq![Event::Answered(id, m.content)]);
            }
            assert(so_far(after) =~= so_far(c) + happened);
        } else if item.str_at("type"@) == Some("reasoning"@) {
            assert(so_far(after) =~= so_far(c) + happened);
        } else {
            let m = chat_message(item);
            if m.role == "system"@ {
                lemma_system_in_front(flat.messages, m);
            } else {
                let last = after.messages.last();
                assert(after.messages =~= flat.messages.push(last));
                lemma_transcript_push(flat.messages, last);
                assert(events(last) == happened);
            }
            assert(so_far(after) =~= so_far(c) + happened);
        }
    }
    assert forall|k: Seq<char>| called_in(all, k) <==> called_in(earlier, k) || (makes_call(item)
        && id == k) by {
        lemma_called_in_push(earlier, item, k);
    }
    assert forall|k: Seq<char>| answered_in(all, k) <==> answered_in(earlier, k) || (gives_output(
        item,
    ) && id == k) by {
        lemma_answered_in_push(earlier, item, k);
    }
}

proof fn lemma_called_in_push(earlier: Seq<Json>, item: Json, id: Seq<char>)
    ensures
        called_in(earlier.push(item), id) <==> called_in(earlier, id) || (makes_call(item)
            && call_id_of(item) == id),
{
    let all = earlier.push(item);
    if called_in(earlier, id) {
        let i = choose|i: int|
            0 <= i < earlier.len() && makes_call(#[trigger] earlier[i]) && call_id_of(earlier[i])
                == id;
        assert(all[i] == earlier[i]);
    }
    if makes_call(item) && call_id_of(item) == id {
        assert(all[earlier.len() as int] == item);
    }
    if called_in(all, id) {
        let i = choose|i: int|
            0 <= i < all.len() && makes_call(#[trigger] all[i]) && call_id_of(all[i]) == id;
        if i < earlier.len() {
            assert(earlier[i] == all[i]);
        }
    }
}

proof fn lemma_answered_in_push(earlier: Seq<Json>, item: Json, id: Seq<char>)
    ensures
        answered_in(earlier.push(item), id) <==> answered_in(earlier, id) || (gives_output(item)
            && call_id_of(item) == id),
{
    let all = earlier.push(item);
    if answered_in(earlier, id) {
        let i = choose|i: int|
            0 <= i < earlier.len() && gives_output(#[trigger] earlier[i]) && call_id_of(earlier[i])
                == id;
        assert(all[i] == earlier[i]);
    }
    if gives_output(item) && call_id_of(item) == id {
        assert(all[earlier.len() as int] == item);
    }
    if answered_in(all, id) {
        let i = choose|i: int|
            0 <= i < all.len() && gives_output(#[trigger] all[i]) && call_id_of(all[i]) == id;
        if i < earlier.len() {
            assert(earlier[i] == all[i]);
        }
    }
}

proof fn lemma_items_add_their_events(
    start: Conversation,
    items: Seq<Json>,
    custom: Map<Seq<char>, ToolId>,
    sessions: SessionStore,
)
    ensures
        ({
            let after = start.after_items(items, custom, sessions);
            &&& so_far(after) == so_far(start) + items_transcript(
                items,
                start.seen_calls,
                start.seen_outputs,
                custom,
            )
            &&& forall|id: Seq<char>| #[trigger]
                after.seen_calls.contains(id) <==> start.seen_calls.contains(id) || called_in(
                    items,
                    id,
                )
            &&& forall|id: Seq<char>| #[trigger]
                after.seen_outputs.contains(id) <==> start.seen_outputs.contains(id) || answered_in(
                    items,
                    id,
                )
            &&& (start.fallback matches Some(m) ==> droppable(m)) ==> (after.fallback matches Some(m)
                ==> droppable(m))
        }),
    decreases items.len(),
{
    if items.len() == 0 {
        assert(so_far(start) + Seq::<Event>::empty() =~= so_far(start));
    } else {
        let rest = items.drop_last();
        let before = start.after_items(rest, custom, sessions);
        lemma_items_add_their_events(start, rest, custom, sessions);
        lemma_item_adds_its_events(start, rest, before, items.last(), custom, sessions);
        assert(rest.push(items.last()) =~= items);
        let after = start.after_items(items, custom, sessions);
        assert(so_far(after) =~= so_far(start) + items_transcript(
            items,
            start.seen_calls,
            start.seen_outputs,
            custom,
        ));
    }
}

/// What the items of an input say, call and answer is added to a conversation
/// in their order, each once: whatever reasoning is stored.
pub proof fn items_are_added_in_order(
    messages: Seq<Message>,
    fallback: Option<Message>,
    items: Seq<Json>,
    custom: Map<Seq<char>, ToolId>,
    sessions: SessionStore,
)
    ensures
        transcript(
            started(messages, fallback).after_items(items, custom, sessions).flushed(
                sessions,
            ).messages,
        ) == transcript(messages) + items_transcript(
            items,
            all_made_calls(messages).to_set() + all_answered_calls(messages).to_set(),
            all_answered_calls(messages).to_set(),
            custom,
        ),
{
    let start = started(messages, fallback);
    lemma_items_add_their_events(start, items, custom, sessions);
    lemma_flush_keeps_events(start.after_items(items, custom, sessions), sessions);
    assert(so_far(start) =~= transcript(messages)) by {
        assert(calling(start.calls) =~= Seq::empty());
    }
}

proof fn lemma_newest_droppable_goes(messages: Seq<Message>)
    ensures
        newest_droppable(messages) matches Some(m) ==> droppable(m),
    decreases messages.len(),
{
    if messages.len() > 0 {
        lemma_newest_droppable_goes(messages.drop_last());
    }
}

proof fn lemma_outgoing_keeps_transcript(messages: Seq<Message>, fallback: Option<Message>)
    requires
        fallback matches Some(m) ==> droppable(m),
    ensures
        transcript(outgoing(messages, fallback)) == transcript(messages),
{
    lemma_literals();
    lemma_with_content_keeps_transcript(messages);
    crate::content::dropping_leaves_content(messages);
    if messages.len() == 0 {
        match fallback {
            Some(m) => lemma_transcript_one(m),
            None => lemma_transcript_one(user_message(Seq::empty())),
        }
        assert(transcript(outgoing(messages, fallback)) =~= transcript(messages));
    } else if all_droppable(messages) {
        assert(droppable(messages[messages.len() - 1]));
        lemma_transcript_one(messages.last());
        assert(with_content(messages) =~= Seq::empty()) by {
            let keep = |m: Message| !droppable(m);
            broadcast use vstd::seq_lib::group_filter_ensures;

            if with_content(messages).len() > 0 {
                let first = messages.filter(keep)[0];
                assert(keep(first));
                assert(messages.filter(keep).contains(first));
                messages.lemma_filter_contains_rev(keep, first);
                let i = choose|i: int| 0 <= i < messages.len() && messages[i] == first;
                assert(droppable(messages[i]));
            }
        }
    }
}

/// What a request says, calls and answers is what its history does, its tool
/// calls with their arguments, and then what its input does: a text that is
/// not blank is said by the user; the items of an input follow in their order,
/// each once. Which reasoning is stored, and which system prompt is given,
/// changes none of it.
pub proof fn requests_tell_the_whole_transcript(
    req: ResponsesRequest,
    history: Seq<Message>,
    sessions: SessionStore,
    options: TranslateOptions,
    env: RelayEnv,
)
    ensures
        transcript(chat_messages(req, history, sessions, options, env)) == transcript(
            history.map_values(|m: Message| completed_message(m)),
        ) + match req.input {
            ResponsesInput::Text(text) => if only_white_space(text@) {
                Seq::empty()
            } else {
                seq![Event::Said("user"@, Some(Json::String(text@)))]
            },
            ResponsesInput::Messages(items) => items_transcript(
                if options.opencode_go_compat {
                    jsons_of(items@).map_values(|item: Json| normalized_item(item))
                } else {
                    jsons_of(items@)
                },
                all_made_calls(history).to_set() + all_answered_calls(history).to_set(),
                all_answered_calls(history).to_set(),
                last_wins(custom_entries(jsons_of(req.tools@), env.denied())),
            ),
        },
{
    lemma_literals();
    let repaired = completed_messages(history);
    assert(repaired =~= history.map_values(|m: Message| completed_message(m)));
    let (start, newest) = opening(req, history);
    let (messages, fallback) = continued(req, history, sessions, options, env);
    lemma_with_content_keeps_transcript(repaired);
    lemma_newest_droppable_goes(repaired);
    assert(transcript(start) == transcript(repaired)) by {
        if let Some(text) = system_text(req) {
            lemma_system_in_front(
                with_content(repaired),
                Message::plain("system"@, Some(Json::String(text))),
            );
        }
    }
    crate::request::lemma_opening_keeps_the_calls(req, history);
    match req.input {
        ResponsesInput::Text(text) => {
            lemma_transcript_push(start, user_message(text@));
        },
        ResponsesInput::Messages(items) => {
            let custom = last_wins(custom_entries(jsons_of(req.tools@), env.denied()));
            let all = input_items(jsons_of(items@), options);
            items_are_added_in_order(start, newest, all, custom, sessions);
            lemma_items_add_their_events(started(start, newest), all, custom, sessions);
            lemma_flush_keeps_events(
                started(start, newest).after_items(all, custom, sessions),
                sessions,
            );
        },
    }
    lemma_outgoing_keeps_transcript(messages, fallback);
}

} // verus!
