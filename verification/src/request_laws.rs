//! What reaches the upstream of the history and the input of a request.
use vstd::prelude::*;

use crate::call_laws::only_white_space;
use crate::calls::completed_message;
use crate::content::{chat_content, chat_message, contentless_item, droppable, with_content};
use crate::conversation::{Conversation, started};
use crate::conversation_laws::input_items_keep_messages;
use crate::env::RelayEnv;
use crate::item_laws::{is_said, items_are_taken_one_by_one};
use crate::items::normalized_item;
use crate::json::{Json, jsons_of};
use crate::literals::lemma_literals;
use crate::request::{
    TranslateOptions, chat_messages, completed_messages, continued, input_items, is_chat_request,
    newest_droppable, opening, outgoing, system_text, user_message,
};
use crate::session::SessionStore;
use crate::tool_names::{ToolId, custom_entries, last_wins};
use crate::tools::chat_tools;
use crate::transcript_laws::{gives_output, makes_call};
use crate::types::{ChatRequest, Message, ResponsesInput, ResponsesRequest};

verus! {

/// The role that an item gives its message.
pub open spec fn role_of(item: Json) -> Seq<char> {
    match item.str_at("role"@) {
        Some(role) => role,
        None => "user"@,
    }
}

/// Whether a message says the content of an item in this role, and nothing
/// else; its reasoning is free.
pub open spec fn says_content(m: Message, role: Seq<char>, item: Json) -> bool {
    &&& m.role == role
    &&& m.content == chat_content(item.get("content"@))
    &&& m.tool_calls is None
    &&& m.tool_call_id is None
    &&& m.name is None
}

/// Whether one of some messages says the content of an item in this role.
pub open spec fn some_message_says(
    messages: Seq<Message>,
    role: Seq<char>,
    item: Json,
) -> bool {
    exists|i: int| 0 <= i < messages.len() && says_content(#[trigger] messages[i], role, item)
}

proof fn lemma_said_item_is_taken(
    c: Conversation,
    items: Seq<Json>,
    custom: Map<Seq<char>, ToolId>,
    sessions: SessionStore,
    i: int,
) -> (m: Message)
    requires
        0 <= i < items.len(),
        is_said(items[i]),
        role_of(items[i]) != "system"@,
        role_of(items[i]) != "developer"@,
    ensures
        says_content(m, role_of(items[i]), items[i]),
        c.after_items(items, custom, sessions).flushed(sessions).messages.contains(m),
{
    lemma_literals();
    let item = items[i];
    let a = items.take(i);
    let b = items.skip(i + 1);
    let one = seq![item];
    assert(items =~= (a + one) + b);
    items_are_taken_one_by_one(c, a + one, b, item, custom, sessions);
    items_are_taken_one_by_one(c, a, one, item, custom, sessions);
    let before = c.after_items(a, custom, sessions);
    items_are_taken_one_by_one(before, a, b, item, custom, sessions);
    let after = before.after_item(item, custom, sessions);
    crate::item_laws::a_message_item_adds_one_message(before, item, custom, sessions);
    let at = before.flushed(sessions).messages.len() as int;
    let m = after.messages[at];
    assert(after.messages.contains(m));
    input_items_keep_messages(after, b, custom, sessions, m);
    m
}

/// A message among the items of an input, unless it carries no content or is
/// one of the system, is in the request: with its role and content, and without
/// calls or the ID of one, whatever reasoning is stored.
pub proof fn messages_reach_the_upstream(
    req: ResponsesRequest,
    history: Seq<Message>,
    sessions: SessionStore,
    options: TranslateOptions,
    env: RelayEnv,
    i: int,
)
    requires
        req.input matches ResponsesInput::Messages(items) && 0 <= i < items@.len() && {
            let item = jsons_of(items@)[i];
            &&& is_said(item)
            &&& role_of(item) != "system"@
            &&& role_of(item) != "developer"@
            &&& !droppable(chat_message(item))
        },
    ensures
        req.input matches ResponsesInput::Messages(items) && some_message_says(
            chat_messages(req, history, sessions, options, env),
            role_of(jsons_of(items@)[i]),
            jsons_of(items@)[i],
        ),
{
    lemma_literals();
    if let ResponsesInput::Messages(items) = req.input {
        let item = jsons_of(items@)[i];
        let all = input_items(jsons_of(items@), options);
        assert(normalized_item(item) == item);
        assert(all[i] == item);
        let (start, newest) = opening(req, history);
        let custom = last_wins(custom_entries(jsons_of(req.tools@), env.denied()));
        let m = lemma_said_item_is_taken(started(start, newest), all, custom, sessions, i);
        let messages = continued(req, history, sessions, options, env).0;
        let j = choose|j: int| 0 <= j < messages.len() && messages[j] == m;
        assert(!droppable(m));
        crate::content::dropping_keeps_content(messages, j);
        let sent = chat_messages(req, history, sessions, options, env);
        let k = choose|k: int| 0 <= k < sent.len() && sent[k] == m;
        assert(says_content(sent[k], role_of(item), item));
    }
}

/// An assistant message among the items of an input is in the request, also
/// one without content, and whatever reasoning is stored.
pub proof fn assistant_messages_reach_the_upstream(
    req: ResponsesRequest,
    history: Seq<Message>,
    sessions: SessionStore,
    options: TranslateOptions,
    env: RelayEnv,
    i: int,
)
    requires
        req.input matches ResponsesInput::Messages(items) && 0 <= i < items@.len() && {
            let item = jsons_of(items@)[i];
            &&& !makes_call(item)
            &&& !gives_output(item)
            &&& item.str_at("type"@) != Some("reasoning"@)
            &&& item.str_at("role"@) == Some("assistant"@)
        },
    ensures
        req.input matches ResponsesInput::Messages(items) && some_message_says(
            chat_messages(req, history, sessions, options, env),
            "assistant"@,
            jsons_of(items@)[i],
        ),
{
    lemma_literals();
    messages_reach_the_upstream(req, history, sessions, options, env, i);
}

/// The input text of a request, unless it is blank, is its last message, said
/// by the user.
pub proof fn an_input_text_comes_last(
    req: ResponsesRequest,
    history: Seq<Message>,
    sessions: SessionStore,
    options: TranslateOptions,
    env: RelayEnv,
)
    requires
        req.input matches ResponsesInput::Text(text) && !only_white_space(text@),
    ensures
        ({
            let sent = chat_messages(req, history, sessions, options, env);
            let m = sent[sent.len() - 1];
            &&& sent.len() > 0
            &&& m.role == "user"@
            &&& req.input matches ResponsesInput::Text(text) && m.content == Some(
                Json::String(text@),
            )
            &&& m.reasoning_content is None
            &&& m.tool_calls is None
            &&& m.tool_call_id is None
            &&& m.name is None
        }),
{
    lemma_literals();
    if let ResponsesInput::Text(text) = req.input {
        let (start, newest) = opening(req, history);
        let m = user_message(text@);
        let messages = continued(req, history, sessions, options, env).0;
        assert(messages =~= start.push(m));
        assert(!droppable(m));
        assert(!droppable(messages[start.len() as int]));
        crate::content_laws::messages_are_left_out_one_by_one(start, m);
        assert(chat_messages(req, history, sessions, options, env) == with_content(start).push(m));
    }
}

/// The system prompt is the instructions, where they are given and not blank,
/// or else the system text, where that is given and not blank.
pub proof fn instructions_come_before_the_system_text(req: ResponsesRequest)
    ensures
        system_text(req) == match req.instructions {
            Some(text) => if !only_white_space(text@) {
                Some(text@)
            } else {
                match req.system {
                    Some(other) => if only_white_space(other@) {
                        None
                    } else {
                        Some(other@)
                    },
                    None => None,
                }
            },
            None => match req.system {
                Some(other) => if only_white_space(other@) {
                    None
                } else {
                    Some(other@)
                },
                None => None,
            },
        },
{
}

/// What a request starts with: its history, repaired, without the messages
/// that can be left out; in front of it the system prompt, where there is one
/// and the history does not start with one.
pub proof fn requests_start_with_their_history(req: ResponsesRequest, history: Seq<Message>)
    ensures
        ({
            let repaired = history.map_values(|m: Message| completed_message(m));
            let kept = with_content(repaired);
            let start = opening(req, history).0;
            let prompt = system_text(req);
            &&& prompt is None || (kept.len() > 0 && kept[0].role == "system"@) ==> start == kept
            &&& prompt is Some && !(kept.len() > 0 && kept[0].role == "system"@) ==> {
                &&& start.len() == kept.len() + 1
                &&& start[0].role == "system"@
                &&& start[0].content == Some(Json::String(prompt->0))
                &&& start[0].reasoning_content is None
                &&& start[0].tool_calls is None
                &&& start[0].tool_call_id is None
                &&& start[0].name is None
                &&& forall|i: int| 0 <= i < kept.len() ==> start[i + 1] == #[trigger] kept[i]
            }
        }),
{
    assert(completed_messages(history) =~= history.map_values(|m: Message| completed_message(m)));
}

/// The message that stands in for want of any other comes from the history as
/// the newest that can be left out.
pub proof fn the_newest_blank_message_is_kept_in_mind(messages: Seq<Message>)
    ensures
        match newest_droppable(messages) {
            Some(m) => exists|i: int|
                {
                    &&& 0 <= i < messages.len()
                    &&& #[trigger] messages[i] == m
                    &&& droppable(m)
                    &&& forall|j: int| i < j < messages.len() ==> !droppable(#[trigger] messages[j])
                },
            None => forall|j: int| 0 <= j < messages.len() ==> !droppable(#[trigger] messages[j]),
        },
    decreases messages.len(),
{
    if messages.len() > 0 {
        let rest = messages.drop_last();
        let n = messages.len() - 1;
        assert(messages[n] == messages.last());
        if !droppable(messages.last()) {
            the_newest_blank_message_is_kept_in_mind(rest);
            match newest_droppable(rest) {
                Some(m) => {
                    let i = choose|i: int|
                        {
                            &&& 0 <= i < rest.len()
                            &&& #[trigger] rest[i] == m
                            &&& droppable(m)
                            &&& forall|j: int| i < j < rest.len() ==> !droppable(#[trigger] rest[j])
                        };
                    assert(messages[i] == m);
                    assert forall|j: int| i < j < messages.len() implies !droppable(
                        #[trigger] messages[j],
                    ) by {
                        if j < n {
                            assert(rest[j] == messages[j]);
                        }
                    }
                },
                None => {
                    assert forall|j: int| 0 <= j < messages.len() implies !droppable(
                        #[trigger] messages[j],
                    ) by {
                        if j < n {
                            assert(rest[j] == messages[j]);
                        }
                    }
                },
            }
        }
    }
}

/// Where a conversation has no message at all, the one that is kept in mind
/// goes upstream, or an empty user message; else what is left of it goes.
pub proof fn there_is_always_a_message(messages: Seq<Message>, fallback: Option<Message>)
    ensures
        messages.len() > 0 ==> outgoing(messages, fallback)
            == crate::content::without_contentless(messages),
        messages.len() == 0 ==> outgoing(messages, fallback).len() == 1,
        messages.len() == 0 ==> match fallback {
            Some(m) => outgoing(messages, fallback)[0] == m,
            None => {
                let m = outgoing(messages, fallback)[0];
                &&& m.role == "user"@
                &&& m.content == Some(Json::String(Seq::empty()))
                &&& m.reasoning_content is None
                &&& m.tool_calls is None
                &&& m.tool_call_id is None
                &&& m.name is None
            },
        },
{
    crate::content::dropping_leaves_content(messages);
}

/// The items of an input are normalized one for one where the options ask for
/// it, and else stay.
pub proof fn options_decide_on_normalizing(
    items: Seq<Json>,
    options: TranslateOptions,
    i: int,
)
    requires
        0 <= i < items.len(),
    ensures
        !options.opencode_go_compat ==> input_items(items, options) == items,
        input_items(items, options).len() == items.len(),
        options.opencode_go_compat ==> input_items(items, options)[i] == normalized_item(items[i]),
{
}

/// Whether an item is a system message that is taken into the conversation.
pub open spec fn is_system_item(item: Json) -> bool {
    is_said(item) && (role_of(item) == "system"@ || role_of(item) == "developer"@)
}

proof fn lemma_item_in_front(
    c: Conversation,
    item: Json,
    custom: Map<Seq<char>, ToolId>,
    sessions: SessionStore,
)
    ensures
        ({
            let after = c.after_item(item, custom, sessions);
            &&& is_system_item(item) ==> after.messages.len() > 0 && after.messages[0]
                == chat_message(item)
            &&& !is_system_item(item) && c.messages.len() > 0 ==> after.messages.len() > 0
                && after.messages[0] == c.messages[0]
        }),
        c.messages.len() > 0 ==> c.flushed(sessions).messages.len() > 0 && c.flushed(
            sessions,
        ).messages[0] == c.messages[0],
{
    lemma_literals();
}

proof fn lemma_system_item_stays_in_front(
    c: Conversation,
    items: Seq<Json>,
    custom: Map<Seq<char>, ToolId>,
    sessions: SessionStore,
)
    requires
        c.messages.len() > 0,
        forall|j: int| 0 <= j < items.len() ==> !is_system_item(#[trigger] items[j]),
    ensures
        c.after_items(items, custom, sessions).messages.len() > 0,
        c.after_items(items, custom, sessions).messages[0] == c.messages[0],
        c.after_items(items, custom, sessions).flushed(sessions).messages.len() > 0,
        c.after_items(items, custom, sessions).flushed(sessions).messages[0] == c.messages[0],
    decreases items.len(),
{
    lemma_item_in_front(c.after_items(items, custom, sessions), Json::Null, custom, sessions);
    if items.len() > 0 {
        let rest = items.drop_last();
        let before = c.after_items(rest, custom, sessions);
        assert forall|j: int| 0 <= j < rest.len() implies !is_system_item(#[trigger] rest[j]) by {
            assert(rest[j] == items[j]);
        }
        lemma_system_item_stays_in_front(c, rest, custom, sessions);
        assert(!is_system_item(items[items.len() - 1]));
        lemma_item_in_front(before, items.last(), custom, sessions);
    }
}

/// The newest system message among the items of an input, where it carries
/// content, is the first message of the request.
pub proof fn the_newest_system_item_comes_first(
    req: ResponsesRequest,
    history: Seq<Message>,
    sessions: SessionStore,
    options: TranslateOptions,
    env: RelayEnv,
    i: int,
)
    requires
        req.input matches ResponsesInput::Messages(items) && 0 <= i < items@.len() && {
            let all = input_items(jsons_of(items@), options);
            &&& is_system_item(all[i])
            &&& !droppable(chat_message(all[i]))
            &&& forall|j: int| i < j < all.len() ==> !is_system_item(#[trigger] all[j])
        },
    ensures
        req.input matches ResponsesInput::Messages(items) && {
            let m = chat_messages(req, history, sessions, options, env)[0];
            &&& says_content(m, "system"@, input_items(jsons_of(items@), options)[i])
            &&& m.reasoning_content is None
        },
{
    lemma_literals();
    if let ResponsesInput::Messages(items) = req.input {
        let all = input_items(jsons_of(items@), options);
        let item = all[i];
        let a = all.take(i);
        let b = all.skip(i + 1);
        let one = seq![item];
        let (start, newest) = opening(req, history);
        let custom = last_wins(custom_entries(jsons_of(req.tools@), env.denied()));
        let c = started(start, newest);
        assert(all =~= (a + one) + b);
        items_are_taken_one_by_one(c, a + one, b, item, custom, sessions);
        items_are_taken_one_by_one(c, a, one, item, custom, sessions);
        let before = c.after_items(a, custom, sessions);
        items_are_taken_one_by_one(before, a, b, item, custom, sessions);
        lemma_item_in_front(before, item, custom, sessions);
        let after = before.after_item(item, custom, sessions);
        assert forall|j: int| 0 <= j < b.len() implies !is_system_item(#[trigger] b[j]) by {
            assert(b[j] == all[i + 1 + j]);
        }
        lemma_system_item_stays_in_front(after, b, custom, sessions);
        let messages = continued(req, history, sessions, options, env).0;
        assert(messages[0] == chat_message(item));
        crate::request::lemma_first_is_kept(messages);
        assert(!droppable(messages[0]));
    }
}

/// Without a system message among the items of an input, the request starts
/// with what its history, and the system prompt in front of it, start with.
pub proof fn the_first_message_stays_first(
    req: ResponsesRequest,
    history: Seq<Message>,
    sessions: SessionStore,
    options: TranslateOptions,
    env: RelayEnv,
)
    requires
        opening(req, history).0.len() > 0,
        req.input matches ResponsesInput::Messages(items) ==> forall|j: int|
            0 <= j < items@.len() ==> !is_system_item(
                #[trigger] input_items(jsons_of(items@), options)[j],
            ),
    ensures
        chat_messages(req, history, sessions, options, env)[0] == opening(req, history).0[0],
{
    let repaired = completed_messages(history);
    let kept = with_content(repaired);
    let keep = |m: Message| !droppable(m);
    let (start, newest) = opening(req, history);
    assert(!droppable(start[0])) by {
        broadcast use vstd::seq_lib::group_filter_ensures;

        if kept.len() > 0 {
            assert(keep(repaired.filter(keep)[0]));
        }
    }
    let messages = continued(req, history, sessions, options, env).0;
    match req.input {
        ResponsesInput::Text(text) => {},
        ResponsesInput::Messages(items) => {
            let all = input_items(jsons_of(items@), options);
            let custom = last_wins(custom_entries(jsons_of(req.tools@), env.denied()));
            assert forall|j: int| 0 <= j < all.len() implies !is_system_item(#[trigger] all[j]) by {
                assert(input_items(jsons_of(items@), options)[j] == all[j]);
            }
            lemma_system_item_stays_in_front(started(start, newest), all, custom, sessions);
        },
    }
    crate::request::lemma_first_is_kept(messages);
    assert(!droppable(messages[0]));
}

/// Whether an item adds no message: it is one without content, or reasoning.
pub open spec fn adds_nothing(item: Json) -> bool {
    contentless_item(item) || item.str_at("type"@) == Some("reasoning"@)
}

/// A request that has nothing but messages without content sends the newest of
/// them: of its input, or else of its history. Where it has none at all, it
/// sends an empty one of the user.
pub proof fn the_newest_blank_message_is_sent_for_want_of_content(
    req: ResponsesRequest,
    history: Seq<Message>,
    sessions: SessionStore,
    options: TranslateOptions,
    env: RelayEnv,
    i: int,
)
    requires
        opening(req, history).0.len() == 0,
        req.input matches ResponsesInput::Messages(items) && {
            let given = jsons_of(items@);
            &&& -1 <= i < given.len()
            &&& forall|j: int| 0 <= j < given.len() ==> adds_nothing(#[trigger] given[j])
            &&& i >= 0 ==> contentless_item(given[i])
            &&& forall|j: int| i < j < given.len() ==> !contentless_item(#[trigger] given[j])
        },
    ensures
        req.input matches ResponsesInput::Messages(items) && chat_messages(
            req,
            history,
            sessions,
            options,
            env,
        ) == seq![
            if i >= 0 {
                chat_message(jsons_of(items@)[i])
            } else {
                match newest_droppable(history.map_values(|m: Message| completed_message(m))) {
                    Some(m) => m,
                    None => Message::plain("user"@, Some(Json::String(Seq::empty()))),
                }
            },
        ],
{
    lemma_literals();
    if let ResponsesInput::Messages(items) = req.input {
        let given = jsons_of(items@);
        let all = input_items(given, options);
        let custom = last_wins(custom_entries(jsons_of(req.tools@), env.denied()));
        let (start, newest) = opening(req, history);
        assert(completed_messages(history) =~= history.map_values(
            |m: Message| completed_message(m),
        ));
        assert forall|j: int| 0 <= j < all.len() implies #[trigger] all[j] == given[j] by {
            assert(adds_nothing(given[j]));
            assert(normalized_item(given[j]) == given[j]);
        }
        assert(all =~= given);
        lemma_nothing_is_added(started(start, newest), all, custom, sessions, i);
        let messages = continued(req, history, sessions, options, env).0;
        assert(messages.len() == 0);
    }
}

proof fn lemma_nothing_is_added(
    c: Conversation,
    items: Seq<Json>,
    custom: Map<Seq<char>, ToolId>,
    sessions: SessionStore,
    i: int,
)
    requires
        -1 <= i < items.len(),
        forall|j: int| 0 <= j < items.len() ==> adds_nothing(#[trigger] items[j]),
        i >= 0 ==> contentless_item(items[i]),
        forall|j: int| i < j < items.len() ==> !contentless_item(#[trigger] items[j]),
        c.calls.len() == 0,
    ensures
        c.after_items(items, custom, sessions).flushed(sessions).messages == c.messages,
        c.after_items(items, custom, sessions).calls.len() == 0,
        c.after_items(items, custom, sessions).flushed(sessions).fallback == if i < 0 {
            c.fallback
        } else {
            Some(chat_message(items[i]))
        },
    decreases items.len(),
{
    lemma_literals();
    if items.len() > 0 {
        let rest = items.drop_last();
        let n = items.len() - 1;
        assert(adds_nothing(items[n]));
        assert forall|j: int| 0 <= j < rest.len() implies adds_nothing(#[trigger] rest[j]) by {
            assert(rest[j] == items[j]);
        }
        assert(forall|j: int| 0 <= j < rest.len() ==> #[trigger] rest[j] == items[j]);
        if i < n {
            assert(!contentless_item(items[n]));
            lemma_nothing_is_added(c, rest, custom, sessions, i);
        } else {
            let k = lemma_last_blank(rest);
            lemma_nothing_is_added(c, rest, custom, sessions, k);
        }
    }
}

proof fn lemma_last_blank(items: Seq<Json>) -> (k: int)
    ensures
        -1 <= k < items.len(),
        k >= 0 ==> contentless_item(items[k]),
        forall|j: int| k < j < items.len() ==> !contentless_item(#[trigger] items[j]),
    decreases items.len(),
{
    if items.len() == 0 {
        -1
    } else if contentless_item(items.last()) {
        items.len() - 1
    } else {
        let rest = items.drop_last();
        let k = lemma_last_blank(rest);
        assert forall|j: int| k < j < items.len() implies !contentless_item(#[trigger] items[j]) by {
            if j < rest.len() {
                assert(rest[j] == items[j]);
            }
        }
        k
    }
}

/// A blank input text is sent all the same where there is no other message.
pub proof fn a_blank_input_text_is_sent_for_want_of_content(
    req: ResponsesRequest,
    history: Seq<Message>,
    sessions: SessionStore,
    options: TranslateOptions,
    env: RelayEnv,
)
    requires
        opening(req, history).0.len() == 0,
        req.input is Text,
    ensures
        req.input matches ResponsesInput::Text(text) && chat_messages(
            req,
            history,
            sessions,
            options,
            env,
        ) == seq![Message::plain("user"@, Some(Json::String(text@)))],
{
    if let ResponsesInput::Text(text) = req.input {
        let m = user_message(text@);
        let one = seq![m];
        let messages = continued(req, history, sessions, options, env).0;
        assert(messages =~= one);
        assert(one[0] == m);
        crate::content_laws::messages_are_left_out_one_by_one(Seq::empty(), m);
        assert(Seq::<Message>::empty().push(m) =~= one);
        crate::content_laws::the_newest_of_blank_messages_stays(messages);
        if droppable(m) {
            assert(crate::content::all_droppable(messages));
        } else {
            assert(!droppable(messages[0]));
        }
    }
}

/// The conversation of a request starts with what the history leaves, takes
/// the items of the input one after the other, and ends with the calls that
/// are still gathered; an input text is said by the user after that start.
pub proof fn requests_are_put_together_in_order(
    req: ResponsesRequest,
    history: Seq<Message>,
    sessions: SessionStore,
    options: TranslateOptions,
    env: RelayEnv,
)
    ensures
        req.input matches ResponsesInput::Messages(items) ==> {
            let (messages, fallback) = opening(req, history);
            let custom = last_wins(custom_entries(jsons_of(req.tools@), env.denied()));
            let end = started(messages, fallback).after_items(
                input_items(jsons_of(items@), options),
                custom,
                sessions,
            ).flushed(sessions);
            chat_messages(req, history, sessions, options, env) == outgoing(
                end.messages,
                end.fallback,
            )
        },
        req.input matches ResponsesInput::Text(text) ==> {
            let said = opening(req, history).0.push(
                Message::plain("user"@, Some(Json::String(text@))),
            );
            chat_messages(req, history, sessions, options, env)
                == crate::content::without_contentless(said)
        },
        opening(req, history).1 == newest_droppable(
            history.map_values(|m: Message| completed_message(m)),
        ),
{
    assert(completed_messages(history) =~= history.map_values(|m: Message| completed_message(m)));
    let (messages, fallback) = continued(req, history, sessions, options, env);
    crate::content::dropping_leaves_content(messages);
}

/// A Chat Completions request carries over the settings of the request that it
/// stands for: its model under the name that the upstream knows, its converted
/// tools, its limits, and whether it streams, with usage numbers if it does. A
/// GLM model, by either name, is asked to think where that is enabled.
pub proof fn requests_carry_their_settings_over(
    r: ChatRequest,
    req: ResponsesRequest,
    history: Seq<Message>,
    sessions: SessionStore,
    options: TranslateOptions,
    env: RelayEnv,
)
    requires
        is_chat_request(r, req, history, sessions, options, env),
    ensures
        r.model@ == env.mapped_model(req.model@),
        r.messages@.len() == chat_messages(req, history, sessions, options, env).len(),
        forall|i: int|
            0 <= i < r.messages@.len() ==> (#[trigger] r.messages@[i])@ == chat_messages(
                req,
                history,
                sessions,
                options,
                env,
            )[i],
        r.tools@.len() == chat_tools(jsons_of(req.tools@), env.denied()).len(),
        forall|i: int|
            0 <= i < r.tools@.len() ==> (#[trigger] r.tools@[i])@ == chat_tools(
                jsons_of(req.tools@),
                env.denied(),
            )[i],
        r.temperature == req.temperature,
        r.max_tokens == req.max_output_tokens,
        r.stream == req.stream,
        !req.stream ==> r.stream_options is None,
        req.stream ==> (r.stream_options matches Some(o) && o.include_usage),
        r.thinking is Some <==> env.glm_thinking && (env.knows_glm(req.model@) || env.knows_glm(
            env.mapped_model(req.model@),
        )),
        r.thinking matches Some(t) ==> t.kind@ == "enabled"@,
        r.reasoning_effort is Some <==> (req.reasoning matches Some(reasoning)
            && reasoning.effort is Some),
        r.reasoning_effort matches Some(effort) ==> (req.reasoning matches Some(reasoning) && (
        reasoning.effort matches Some(asked) && effort@ == asked@)),
{
    let sent = chat_messages(req, history, sessions, options, env);
    assert forall|i: int| 0 <= i < r.messages@.len() implies (#[trigger] r.messages@[i])@
        == sent[i] by {
        assert(crate::types::messages_of(r.messages@)[i] == sent[i]);
    }
    let tools = chat_tools(jsons_of(req.tools@), env.denied());
    assert(jsons_of(r.tools@).len() == tools.len());
    assert forall|i: int| 0 <= i < r.tools@.len() implies (#[trigger] r.tools@[i])@ == tools[i] by {
        assert(jsons_of(r.tools@)[i] == tools[i]);
    }
}

} // verus!
