//! What holds of every conversation that is put together from input items.
use vstd::prelude::*;

use crate::calls::{completed_call, completed_message};
use crate::content::{chat_message, contentless_item, droppable, with_content};
use crate::conversation::{
    Conversation, all_answered_calls, all_made_calls, answered_call, call_ids, calling_message,
    gathered, is_call, is_output, item_call_id, made_calls, output_message, replayed_arguments,
    started, tool_call, with_system_in_front,
};
use crate::json::Json;
use crate::session::SessionStore;
use crate::tool_names::{ToolId, replayed_name};
use crate::types::Message;

verus! {

proof fn lemma_gathered_both(
    a: Seq<Message>,
    b: Seq<Message>,
    find: spec_fn(Message) -> Seq<Seq<char>>,
)
    ensures
        gathered(a + b, find) == gathered(a, find) + gathered(b, find),
    decreases b.len(),
{
    if b.len() == 0 {
        assert(a + b =~= a);
        assert(gathered(a, find) + gathered(b, find) =~= gathered(a, find));
    } else {
        assert((a + b).drop_last() =~= a + b.drop_last());
        lemma_gathered_both(a, b.drop_last(), find);
        assert(gathered(a + b, find) =~= gathered(a, find) + gathered(b, find));
    }
}

proof fn lemma_gathered_one(m: Message, find: spec_fn(Message) -> Seq<Seq<char>>)
    ensures
        gathered(seq![m], find) == find(m),
{
    let one = seq![m];
    assert(gathered(one.drop_last(), find) =~= Seq::empty());
    assert(one.last() == m);
    assert(gathered(one, find) =~= find(m));
}

proof fn lemma_gathered_push(
    messages: Seq<Message>,
    m: Message,
    find: spec_fn(Message) -> Seq<Seq<char>>,
)
    ensures
        gathered(messages.push(m), find) == gathered(messages, find) + find(m),
{
    assert(messages.push(m).drop_last() =~= messages);
}

/// What is gathered from messages with a system message in front: what was
/// gathered before, but for what the replaced message had.
proof fn lemma_gathered_system(
    messages: Seq<Message>,
    system: Message,
    find: spec_fn(Message) -> Seq<Seq<char>>,
)
    requires
        find(system) == Seq::<Seq<char>>::empty(),
    ensures
        exists|gone: Seq<Seq<char>>|
            gathered(messages, find) == #[trigger] (gone + gathered(
                with_system_in_front(messages, system),
                find,
            )),
{
    let after = with_system_in_front(messages, system);
    lemma_gathered_one(system, find);
    if messages.len() > 0 && messages[0].role == "system"@ {
        let rest = messages.skip(1);
        let first = messages[0];
        assert(messages =~= seq![first] + rest);
        assert(after =~= seq![system] + rest);
        lemma_gathered_both(seq![first], rest, find);
        lemma_gathered_both(seq![system], rest, find);
        lemma_gathered_one(first, find);
        assert(gathered(after, find) =~= gathered(rest, find));
        assert(gathered(messages, find) == find(first) + gathered(after, find));
    } else {
        assert(after =~= seq![system] + messages);
        lemma_gathered_both(seq![system], messages, find);
        assert(gathered(messages, find) =~= Seq::<Seq<char>>::empty() + gathered(after, find));
    }
}

proof fn lemma_gathered_with_content(
    messages: Seq<Message>,
    find: spec_fn(Message) -> Seq<Seq<char>>,
)
    requires
        forall|m: Message| droppable(m) ==> #[trigger] find(m) == Seq::<Seq<char>>::empty(),
    ensures
        gathered(with_content(messages), find) == gathered(messages, find),
    decreases messages.len(),
{
    reveal(Seq::filter);
    if messages.len() > 0 {
        let rest = messages.drop_last();
        lemma_gathered_with_content(rest, find);
        if droppable(messages.last()) {
            assert(gathered(messages, find) =~= gathered(rest, find));
        } else {
            lemma_gathered_push(with_content(rest), messages.last(), find);
        }
    }
}

proof fn lemma_gathered_mapped(
    messages: Seq<Message>,
    change: spec_fn(Message) -> Message,
    find: spec_fn(Message) -> Seq<Seq<char>>,
)
    requires
        forall|m: Message| find(#[trigger] change(m)) == find(m),
    ensures
        gathered(messages.map_values(change), find) == gathered(messages, find),
    decreases messages.len(),
{
    if messages.len() > 0 {
        let mapped = messages.map_values(change);
        assert(mapped.drop_last() =~= messages.drop_last().map_values(change));
        assert(mapped.last() == change(messages.last()));
        lemma_gathered_mapped(messages.drop_last(), change, find);
    }
}

proof fn lemma_completed_calls_keep_ids(calls: Seq<Json>)
    ensures
        call_ids(calls.map_values(|call: Json| completed_call(call))) == call_ids(calls),
    decreases calls.len(),
{
    reveal_strlit("id");
    reveal_strlit("function");
    assert("id"@.len() != "function"@.len());
    if calls.len() > 0 {
        let mapped = calls.map_values(|call: Json| completed_call(call));
        assert(mapped.drop_last() =~= calls.drop_last().map_values(
            |call: Json| completed_call(call),
        ));
        lemma_completed_calls_keep_ids(calls.drop_last());
        assert(mapped.last() == completed_call(calls.last()));
        assert(mapped.last().get("id"@) == calls.last().get("id"@));
    }
}

/// The calls of a repaired history are the calls of the history.
proof fn lemma_repair_keeps_ids(messages: Seq<Message>)
    ensures
        all_made_calls(messages.map_values(|m: Message| completed_message(m))) == all_made_calls(
            messages,
        ),
        all_answered_calls(messages.map_values(|m: Message| completed_message(m)))
            == all_answered_calls(messages),
{
    let change = |m: Message| completed_message(m);
    let made = |m: Message| made_calls(m);
    let answered = |m: Message| answered_call(m);
    assert forall|m: Message| made(#[trigger] change(m)) == made(m) by {
        if let Some(calls) = m.tool_calls {
            lemma_completed_calls_keep_ids(calls);
        }
    }
    assert forall|m: Message| answered(#[trigger] change(m)) == answered(m) by {}
    lemma_gathered_mapped(messages, change, made);
    lemma_gathered_mapped(messages, change, answered);
}

/// Whether no call is made twice and none is answered twice.
pub open spec fn nothing_repeated(messages: Seq<Message>) -> bool {
    all_made_calls(messages).no_duplicates() && all_answered_calls(messages).no_duplicates()
}

/// The IDs of the calls of a conversation, those that are being gathered included.
spec fn ids_so_far(c: Conversation) -> Seq<Seq<char>> {
    all_made_calls(c.messages) + call_ids(c.calls)
}

/// Whether all the names of a list are in a set.
spec fn all_in(names: Seq<Seq<char>>, set: Set<Seq<char>>) -> bool {
    forall|i: int| 0 <= i < names.len() ==> set.contains(#[trigger] names[i])
}

spec fn sound(c: Conversation) -> bool {
    &&& ids_so_far(c).no_duplicates()
    &&& all_in(ids_so_far(c), c.seen_calls)
    &&& all_answered_calls(c.messages).no_duplicates()
    &&& all_in(all_answered_calls(c.messages), c.seen_outputs)
}

proof fn lemma_fresh_push(names: Seq<Seq<char>>, set: Set<Seq<char>>, name: Seq<char>)
    requires
        names.no_duplicates(),
        all_in(names, set),
        !set.contains(name),
    ensures
        names.push(name).no_duplicates(),
        all_in(names.push(name), set.insert(name)),
{
    let after = names.push(name);
    assert forall|i: int, j: int| 0 <= i < after.len() && 0 <= j < after.len() && i != j implies
        after[i] != after[j] by {
        if i < names.len() {
            assert(set.contains(names[i]));
        }
        if j < names.len() {
            assert(set.contains(names[j]));
        }
    }
    assert forall|i: int| 0 <= i < after.len() implies set.insert(name).contains(
        #[trigger] after[i],
    ) by {
        if i < names.len() {
            assert(set.contains(names[i]));
        }
    }
}

proof fn lemma_tail(gone: Seq<Seq<char>>, rest: Seq<Seq<char>>, set: Set<Seq<char>>)
    requires
        (gone + rest).no_duplicates(),
        all_in(gone + rest, set),
    ensures
        rest.no_duplicates(),
        all_in(rest, set),
{
    let whole = gone + rest;
    assert forall|i: int, j: int| 0 <= i < rest.len() && 0 <= j < rest.len() && i != j implies
        rest[i] != rest[j] by {
        assert(whole[gone.len() + i] == rest[i] && whole[gone.len() + j] == rest[j]);
    }
    assert forall|i: int| 0 <= i < rest.len() implies set.contains(#[trigger] rest[i]) by {
        assert(whole[gone.len() + i] == rest[i]);
    }
}

proof fn lemma_call_stays_sound(
    c: Conversation,
    item: Json,
    custom: Map<Seq<char>, ToolId>,
    sessions: SessionStore,
)
    requires
        sound(c),
    ensures
        sound(c.after_call(item, custom, sessions)),
{
    reveal_strlit("id");
    reveal_strlit("type");
    reveal_strlit("function");
    assert("id"@.len() == 2 && "type"@.len() == 4 && "function"@.len() == 8);
    let id = item_call_id(item);
    if !c.seen_calls.contains(id) {
        let after = c.after_call(item, custom, sessions);
        let call = tool_call(id, replayed_name(item), replayed_arguments(item, custom));
        assert(call.str_at("id"@) == Some(id));
        assert(after.calls.drop_last() =~= c.calls);
        assert(call_ids(after.calls) == call_ids(c.calls).push(id));
        assert(ids_so_far(after) =~= ids_so_far(c).push(id));
        lemma_fresh_push(ids_so_far(c), c.seen_calls, id);
    }
}

proof fn lemma_flush_stays_sound(c: Conversation, sessions: SessionStore)
    requires
        sound(c),
    ensures
        sound(c.flushed(sessions)),
{
    if c.calls.len() > 0 {
        let after = c.flushed(sessions);
        let message = after.messages.last();
        let made = |m: Message| made_calls(m);
        let answered = |m: Message| answered_call(m);
        lemma_gathered_push(c.messages, message, made);
        lemma_gathered_push(c.messages, message, answered);
        assert(made(message) == call_ids(c.calls));
        assert(answered(message) == Seq::<Seq<char>>::empty());
        assert(ids_so_far(after) =~= ids_so_far(c));
        assert(all_answered_calls(after.messages) =~= all_answered_calls(c.messages));
    }
}

proof fn lemma_output_stays_sound(c: Conversation, item: Json)
    requires
        sound(c),
    ensures
        sound(c.after_output(item)),
{
    let id = item_call_id(item);
    if !c.seen_outputs.contains(id) {
        let after = c.after_output(item);
        let message = output_message(item);
        let made = |m: Message| made_calls(m);
        let answered = |m: Message| answered_call(m);
        lemma_gathered_push(c.messages, message, made);
        lemma_gathered_push(c.messages, message, answered);
        assert(made(message) == Seq::<Seq<char>>::empty());
        assert(answered(message) == seq![id]);
        assert(ids_so_far(after) =~= ids_so_far(c));
        assert(all_answered_calls(after.messages) =~= all_answered_calls(c.messages).push(id));
        lemma_fresh_push(all_answered_calls(c.messages), c.seen_outputs, id);
    }
}

proof fn lemma_message_stays_sound(c: Conversation, item: Json, sessions: SessionStore)
    requires
        sound(c),
    ensures
        sound(c.after_message(item, sessions)),
{
    let after = c.after_message(item, sessions);
    let message = chat_message(item);
    let made = |m: Message| made_calls(m);
    let answered = |m: Message| answered_call(m);
    assert(made(message) == Seq::<Seq<char>>::empty());
    assert(answered(message) == Seq::<Seq<char>>::empty());
    if message.role != "assistant"@ && message.role == "system"@ {
        lemma_gathered_system(c.messages, message, made);
        lemma_gathered_system(c.messages, message, answered);
        let gone = choose|gone: Seq<Seq<char>>|
            gathered(c.messages, made) == #[trigger] (gone + gathered(after.messages, made));
        assert(ids_so_far(c) =~= gone + ids_so_far(after));
        lemma_tail(gone, ids_so_far(after), c.seen_calls);
        let other = choose|gone: Seq<Seq<char>>|
            gathered(c.messages, answered) == #[trigger] (gone + gathered(
                after.messages,
                answered,
            ));
        lemma_tail(other, all_answered_calls(after.messages), c.seen_outputs);
    } else {
        let pushed = after.messages.last();
        assert(after.messages =~= c.messages.push(pushed));
        lemma_gathered_push(c.messages, pushed, made);
        lemma_gathered_push(c.messages, pushed, answered);
        assert(made(pushed) == Seq::<Seq<char>>::empty());
        assert(answered(pushed) == Seq::<Seq<char>>::empty());
        assert(ids_so_far(after) =~= ids_so_far(c));
        assert(all_answered_calls(after.messages) =~= all_answered_calls(c.messages));
    }
}

proof fn lemma_items_stay_sound(
    c: Conversation,
    items: Seq<Json>,
    custom: Map<Seq<char>, ToolId>,
    sessions: SessionStore,
)
    requires
        sound(c),
    ensures
        sound(c.after_items(items, custom, sessions)),
    decreases items.len(),
{
    if items.len() > 0 {
        let before = c.after_items(items.drop_last(), custom, sessions);
        let item = items.last();
        lemma_items_stay_sound(c, items.drop_last(), custom, sessions);
        lemma_call_stays_sound(before, item, custom, sessions);
        lemma_flush_stays_sound(before, sessions);
        lemma_output_stays_sound(before.flushed(sessions), item);
        lemma_message_stays_sound(before.flushed(sessions), item, sessions);
    }
}

/// Input items never repeat a call or an output: where the messages before
/// them repeat none, neither do the messages after them.
pub proof fn input_items_repeat_nothing(
    messages: Seq<Message>,
    fallback: Option<Message>,
    items: Seq<Json>,
    custom: Map<Seq<char>, ToolId>,
    sessions: SessionStore,
)
    requires
        nothing_repeated(messages),
    ensures
        nothing_repeated(
            started(messages, fallback).after_items(items, custom, sessions).flushed(
                sessions,
            ).messages,
        ),
{
    let c = started(messages, fallback);
    assert(ids_so_far(c) =~= all_made_calls(messages));
    assert forall|i: int| 0 <= i < ids_so_far(c).len() implies c.seen_calls.contains(
        #[trigger] ids_so_far(c)[i],
    ) by {
        assert(all_made_calls(messages).contains(ids_so_far(c)[i]));
    }
    assert forall|i: int| 0 <= i < all_answered_calls(messages).len() implies c.seen_outputs
        .contains(#[trigger] all_answered_calls(messages)[i]) by {
        assert(all_answered_calls(messages).contains(all_answered_calls(messages)[i]));
    }
    lemma_items_stay_sound(c, items, custom, sessions);
    let all = c.after_items(items, custom, sessions);
    lemma_flush_stays_sound(all, sessions);
    let done = all.flushed(sessions);
    assert(done.calls.len() == 0);
    assert(ids_so_far(done) =~= all_made_calls(done.messages));
}

/// Tool calls that follow each other, but for messages without content, are
/// gathered: no message comes between them.
pub proof fn consecutive_calls_share_a_message(
    c: Conversation,
    items: Seq<Json>,
    custom: Map<Seq<char>, ToolId>,
    sessions: SessionStore,
)
    requires
        forall|i: int|
            0 <= i < items.len() ==> is_call(#[trigger] items[i]) || contentless_item(items[i]),
    ensures
        c.after_items(items, custom, sessions).messages == c.messages,
        c.after_items(items, custom, sessions).flushed(sessions).messages.len() <= c.messages.len()
            + 1,
    decreases items.len(),
{
    if items.len() > 0 {
        let rest = items.drop_last();
        assert forall|i: int| 0 <= i < rest.len() implies is_call(#[trigger] rest[i])
            || contentless_item(rest[i]) by {
            assert(rest[i] == items[i]);
        }
        consecutive_calls_share_a_message(c, rest, custom, sessions);
        assert(is_call(items[items.len() - 1]) || contentless_item(items[items.len() - 1]));
    }
}

/// A replayed call that is not there yet, and whose reasoning was kept, comes
/// back with that reasoning.
pub proof fn replayed_calls_get_their_reasoning(
    c: Conversation,
    item: Json,
    custom: Map<Seq<char>, ToolId>,
    sessions: SessionStore,
)
    requires
        is_call(item),
        c.calls.len() == 0,
        c.reasoning is None,
        !c.seen_calls.contains(item_call_id(item)),
        sessions.call_reasoning(item_call_id(item)) is Some,
    ensures
        c.after_item(item, custom, sessions).flushed(sessions).messages == c.messages.push(
            calling_message(
                seq![
                    tool_call(
                        item_call_id(item),
                        replayed_name(item),
                        replayed_arguments(item, custom),
                    ),
                ],
                sessions.call_reasoning(item_call_id(item)),
            ),
        ),
{
    let call = tool_call(
        item_call_id(item),
        replayed_name(item),
        replayed_arguments(item, custom),
    );
    lemma_calls_have_content(item);
    assert(c.calls.push(call) =~= seq![call]);
}

proof fn lemma_calls_have_content(item: Json)
    requires
        is_call(item),
    ensures
        !contentless_item(item),
{
    reveal_strlit("function_call");
    reveal_strlit("custom_tool_call");
    reveal_strlit("message");
    reveal_strlit("agent_message");
    assert("function_call"@.len() == 13 && "custom_tool_call"@.len() == 16);
    assert("message"@.len() == 7 && "agent_message"@.len() == 13);
    assert("function_call"@[0] == 'f' && "agent_message"@[0] == 'a');
}

/// Whether only the first of some messages may be a system message.
pub open spec fn system_only_in_front(messages: Seq<Message>) -> bool {
    forall|i: int| 0 < i < messages.len() ==> (#[trigger] messages[i]).role != "system"@
}

proof fn lemma_roles_differ()
    ensures
        "assistant"@ != "system"@,
        "tool"@ != "system"@,
        "user"@ != "system"@,
{
    reveal_strlit("assistant");
    reveal_strlit("system");
    reveal_strlit("tool");
    reveal_strlit("user");
    assert("assistant"@.len() == 9 && "system"@.len() == 6 && "tool"@.len() == 4
        && "user"@.len() == 4);
}

proof fn lemma_item_keeps_system_in_front(
    c: Conversation,
    item: Json,
    custom: Map<Seq<char>, ToolId>,
    sessions: SessionStore,
)
    requires
        system_only_in_front(c.messages),
    ensures
        system_only_in_front(c.flushed(sessions).messages),
        system_only_in_front(c.after_item(item, custom, sessions).messages),
{
    lemma_roles_differ();
    let flushed = c.flushed(sessions);
    assert(system_only_in_front(flushed.messages));
    let after = flushed.after_message(item, sessions);
    let message = chat_message(item);
    assert(system_only_in_front(after.messages)) by {
        if message.role != "assistant"@ && message.role == "system"@ {
            let ms = flushed.messages;
            assert forall|i: int| 0 < i < after.messages.len() implies (
            #[trigger] after.messages[i]).role != "system"@ by {
                if ms.len() > 0 && ms[0].role == "system"@ {
                    assert(after.messages[i] == ms[i]);
                } else {
                    assert(after.messages[i] == ms[i - 1]);
                }
            }
        }
    }
}

/// Input items put system messages at the front only: where the messages
/// before them have one nowhere else, neither do the messages after them.
pub proof fn system_messages_stay_in_front(
    c: Conversation,
    items: Seq<Json>,
    custom: Map<Seq<char>, ToolId>,
    sessions: SessionStore,
)
    requires
        system_only_in_front(c.messages),
    ensures
        system_only_in_front(c.after_items(items, custom, sessions).messages),
        system_only_in_front(c.after_items(items, custom, sessions).flushed(sessions).messages),
    decreases items.len(),
{
    lemma_roles_differ();
    if items.len() > 0 {
        let before = c.after_items(items.drop_last(), custom, sessions);
        system_messages_stay_in_front(c, items.drop_last(), custom, sessions);
        lemma_item_keeps_system_in_front(before, items.last(), custom, sessions);
    }
}

proof fn lemma_item_keeps_message(
    c: Conversation,
    item: Json,
    custom: Map<Seq<char>, ToolId>,
    sessions: SessionStore,
    m: Message,
)
    requires
        c.messages.contains(m),
        m.role != "system"@,
    ensures
        c.flushed(sessions).messages.contains(m),
        c.after_item(item, custom, sessions).messages.contains(m),
{
    let i = choose|i: int| 0 <= i < c.messages.len() && c.messages[i] == m;
    let flushed = c.flushed(sessions);
    assert(flushed.messages[i] == m);
    let after = flushed.after_message(item, sessions);
    let message = chat_message(item);
    if message.role != "assistant"@ && message.role == "system"@ {
        if flushed.messages.len() > 0 && flushed.messages[0].role == "system"@ {
            assert(after.messages[i] == m);
        } else {
            assert(after.messages[i + 1] == m);
        }
    } else {
        assert(after.messages[i] == m);
    }
    let answered = flushed.after_output(item);
    assert(answered.messages[i] == m);
}

/// A message that is not a system message stays, whatever items follow.
pub proof fn input_items_keep_messages(
    c: Conversation,
    items: Seq<Json>,
    custom: Map<Seq<char>, ToolId>,
    sessions: SessionStore,
    m: Message,
)
    requires
        c.messages.contains(m),
        m.role != "system"@,
    ensures
        c.after_items(items, custom, sessions).messages.contains(m),
        c.after_items(items, custom, sessions).flushed(sessions).messages.contains(m),
    decreases items.len(),
{
    if items.len() > 0 {
        let before = c.after_items(items.drop_last(), custom, sessions);
        input_items_keep_messages(c, items.drop_last(), custom, sessions, m);
        lemma_item_keeps_message(before, items.last(), custom, sessions, m);
        lemma_item_keeps_message(
            c.after_items(items, custom, sessions),
            items.last(),
            custom,
            sessions,
            m,
        );
    } else {
        lemma_item_keeps_message(c, Json::Null, custom, sessions, m);
    }
}

/// Whether an input item is a message of neither the assistant nor the system,
/// and has content.
pub open spec fn is_plain_message(item: Json) -> bool {
    let role = chat_message(item).role;
    &&& !contentless_item(item)
    &&& !is_call(item)
    &&& !is_output(item)
    &&& !item.has_str("type"@, "reasoning"@)
    &&& role != "assistant"@
    &&& role != "system"@
}

/// A plain message among the input items is in the conversation after them.
pub proof fn plain_messages_are_taken(
    c: Conversation,
    items: Seq<Json>,
    custom: Map<Seq<char>, ToolId>,
    sessions: SessionStore,
    i: int,
)
    requires
        0 <= i < items.len(),
        is_plain_message(items[i]),
    ensures
        c.after_items(items, custom, sessions).flushed(sessions).messages.contains(
            chat_message(items[i]),
        ),
{
    lemma_plain_message_is_taken(c, items, custom, sessions, i);
    lemma_item_keeps_message(
        c.after_items(items, custom, sessions),
        items[i],
        custom,
        sessions,
        chat_message(items[i]),
    );
}

proof fn lemma_plain_message_is_taken(
    c: Conversation,
    items: Seq<Json>,
    custom: Map<Seq<char>, ToolId>,
    sessions: SessionStore,
    i: int,
)
    requires
        0 <= i < items.len(),
        is_plain_message(items[i]),
    ensures
        c.after_items(items, custom, sessions).messages.contains(chat_message(items[i])),
    decreases items.len(),
{
    let rest = items.drop_last();
    let m = chat_message(items[i]);
    if i == items.len() - 1 {
        assert(c.after_items(items, custom, sessions).messages.last() == m);
    } else {
        assert(rest[i] == items[i]);
        lemma_plain_message_is_taken(c, rest, custom, sessions, i);
        lemma_item_keeps_message(
            c.after_items(rest, custom, sessions),
            items.last(),
            custom,
            sessions,
            m,
        );
    }
}

/// Repairing a history, and leaving out its messages without content, changes
/// neither the calls that it makes nor those that it answers.
pub proof fn repair_keeps_the_calls(history: Seq<Message>)
    ensures
        all_made_calls(with_content(history.map_values(|m: Message| completed_message(m))))
            == all_made_calls(history),
        all_answered_calls(with_content(history.map_values(|m: Message| completed_message(m))))
            == all_answered_calls(history),
{
    let repaired = history.map_values(|m: Message| completed_message(m));
    lemma_repair_keeps_ids(history);
    lemma_gathered_with_content(repaired, |m: Message| made_calls(m));
    lemma_gathered_with_content(repaired, |m: Message| answered_call(m));
}

/// Leaving out messages without content repeats nothing that was not repeated.
pub proof fn dropping_keeps_the_calls(messages: Seq<Message>)
    ensures
        all_made_calls(with_content(messages)) == all_made_calls(messages),
        all_answered_calls(with_content(messages)) == all_answered_calls(messages),
{
    lemma_gathered_with_content(messages, |m: Message| made_calls(m));
    lemma_gathered_with_content(messages, |m: Message| answered_call(m));
}

/// A message in front that makes and answers no call changes neither.
pub(crate) proof fn lemma_front_keeps_the_calls(messages: Seq<Message>, m: Message)
    requires
        made_calls(m).len() == 0,
        answered_call(m).len() == 0,
    ensures
        all_made_calls(messages.insert(0, m)) == all_made_calls(messages),
        all_answered_calls(messages.insert(0, m)) == all_answered_calls(messages),
{
    let made = |m: Message| made_calls(m);
    let answered = |m: Message| answered_call(m);
    assert(messages.insert(0, m) =~= seq![m] + messages);
    lemma_gathered_both(seq![m], messages, made);
    lemma_gathered_both(seq![m], messages, answered);
    lemma_gathered_one(m, made);
    lemma_gathered_one(m, answered);
    assert(all_made_calls(messages.insert(0, m)) =~= all_made_calls(messages));
    assert(all_answered_calls(messages.insert(0, m)) =~= all_answered_calls(messages));
}

/// A message at the end adds the calls that it makes and answers.
pub(crate) proof fn lemma_end_adds_its_calls(messages: Seq<Message>, m: Message)
    ensures
        all_made_calls(messages.push(m)) == all_made_calls(messages) + made_calls(m),
        all_answered_calls(messages.push(m)) == all_answered_calls(messages) + answered_call(m),
{
    lemma_gathered_push(messages, m, |m: Message| made_calls(m));
    lemma_gathered_push(messages, m, |m: Message| answered_call(m));
}

/// Leaving out messages without content moves no system message away from the
/// front.
pub proof fn dropping_keeps_system_in_front(messages: Seq<Message>)
    requires
        system_only_in_front(messages),
    ensures
        system_only_in_front(with_content(messages)),
    decreases messages.len(),
{
    reveal(Seq::filter);
    if messages.len() > 0 {
        let rest = messages.drop_last();
        assert forall|i: int| 0 < i < rest.len() implies (#[trigger] rest[i]).role
            != "system"@ by {
            assert(rest[i] == messages[i]);
        }
        dropping_keeps_system_in_front(rest);
        if messages.len() == 1 {
            assert(with_content(rest).len() == 0);
        } else {
            assert(messages[messages.len() - 1].role != "system"@);
        }
    }
}

} // verus!
