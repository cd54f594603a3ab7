//! From a Responses request to a Chat Completions request.
use vstd::prelude::*;

use crate::calls::{complete_message_tool_arguments, completed_message};
use crate::content::{
    all_droppable, chat_message, contentless_item, drop_contentless_messages, droppable,
    is_droppable_contentless, retain_with_content, with_content, without_contentless,
};
use crate::conversation::{
    Conversation, ConversationState, all_answered_calls, all_made_calls, opt_message, started,
};
use crate::conversation_laws::{
    dropping_keeps_system_in_front, dropping_keeps_the_calls, input_items_keep_messages,
    input_items_repeat_nothing, is_plain_message, lemma_end_adds_its_calls,
    lemma_front_keeps_the_calls, nothing_repeated, plain_messages_are_taken,
    repair_keeps_the_calls, system_messages_stay_in_front, system_only_in_front,
};
use crate::env::{RelayEnv, is_glm_like_model, map_model_name};
use crate::items::normalize_opencode_go_input_item;
use crate::json::{Json, JsonValue, jsons_of};
use crate::native::normalized_items;
use crate::session::SessionStore;
use crate::text::{blank_text, is_blank, same_text};
use crate::tool_names::{ToolId, custom_entries, custom_ids, custom_tool_map, last_wins};
use crate::tools::{chat_tools, convert_tools};
use crate::types::{
    ChatMessage, ChatRequest, ChatStreamOptions, ChatThinking, Message, ResponsesInput,
    ResponsesRequest, clone_text, messages_of, opt_text,
};

verus! {

/// Workarounds for single providers.
#[derive(Debug, Clone, Copy, PartialEq, Eq)]
pub struct TranslateOptions {
    pub opencode_go_compat: bool,
}

impl Default for TranslateOptions {
    /// No workarounds.
    fn default() -> (r: TranslateOptions)
        ensures
            !r.opencode_go_compat,
    {
        TranslateOptions { opencode_go_compat: false }
    }
}

/// Messages whose tool calls have arguments.
pub open spec fn completed_messages(messages: Seq<Message>) -> Seq<Message> {
    messages.map_values(|m: Message| completed_message(m))
}

/// The newest message without content.
pub open spec fn newest_droppable(messages: Seq<Message>) -> Option<Message>
    decreases messages.len(),
{
    if messages.len() == 0 {
        None
    } else if droppable(messages.last()) {
        Some(messages.last())
    } else {
        newest_droppable(messages.drop_last())
    }
}

/// A text that is not blank.
pub open spec fn non_blank(text: Option<String>) -> Option<Seq<char>> {
    match text {
        Some(t) => if blank_text(t@) {
            None
        } else {
            Some(t@)
        },
        None => None,
    }
}

/// The system prompt of a request: its instructions, or else its system text.
pub open spec fn system_text(req: ResponsesRequest) -> Option<Seq<char>> {
    if non_blank(req.instructions) is Some {
        non_blank(req.instructions)
    } else {
        non_blank(req.system)
    }
}

/// Messages with a system prompt, where there is one, unless they start with one.
pub open spec fn with_system_text(messages: Seq<Message>, text: Option<Seq<char>>) -> Seq<
    Message,
> {
    match text {
        Some(t) => if messages.len() > 0 && messages[0].role == "system"@ {
            messages
        } else {
            messages.insert(0, Message::plain("system"@, Some(Json::String(t))))
        },
        None => messages,
    }
}

/// What the history of a request leaves: its messages with content, after the
/// system prompt, and the newest message without.
pub open spec fn opening(req: ResponsesRequest, history: Seq<Message>) -> (
    Seq<Message>,
    Option<Message>,
) {
    let repaired = completed_messages(history);
    (with_system_text(with_content(repaired), system_text(req)), newest_droppable(repaired))
}

/// The input items of a request, in the form that the options ask for.
pub open spec fn input_items(items: Seq<Json>, options: TranslateOptions) -> Seq<Json> {
    if options.opencode_go_compat {
        normalized_items(items)
    } else {
        items
    }
}

/// The user message for a text.
pub open spec fn user_message(text: Seq<char>) -> Message {
    Message::plain("user"@, Some(Json::String(text)))
}

/// The conversation that the input of a request continues.
pub open spec fn continued(
    req: ResponsesRequest,
    history: Seq<Message>,
    sessions: SessionStore,
    options: TranslateOptions,
    env: RelayEnv,
) -> (Seq<Message>, Option<Message>) {
    let (messages, fallback) = opening(req, history);
    match req.input {
        ResponsesInput::Text(text) => {
            let message = user_message(text@);
            (
                messages.push(message),
                if droppable(message) {
                    Some(message)
                } else {
                    fallback
                },
            )
        },
        ResponsesInput::Messages(items) => {
            let custom = last_wins(custom_entries(jsons_of(req.tools@), env.denied()));
            let done = started(messages, fallback).after_items(
                input_items(jsons_of(items@), options),
                custom,
                sessions,
            ).flushed(sessions);
            (done.messages, done.fallback)
        },
    }
}

/// The messages that go upstream: those with content, or, where there is none,
/// the newest without.
pub open spec fn outgoing(messages: Seq<Message>, fallback: Option<Message>) -> Seq<Message> {
    let kept = without_contentless(messages);
    if kept.len() == 0 {
        match fallback {
            Some(message) => seq![message],
            None => seq![user_message(Seq::empty())],
        }
    } else {
        kept
    }
}

/// The messages of the Chat Completions request for a Responses request.
pub open spec fn chat_messages(
    req: ResponsesRequest,
    history: Seq<Message>,
    sessions: SessionStore,
    options: TranslateOptions,
    env: RelayEnv,
) -> Seq<Message> {
    let (messages, fallback) = continued(req, history, sessions, options, env);
    outgoing(messages, fallback)
}

/// Whether the upstream is asked to think: only GLM models take that field.
pub open spec fn asks_to_think(model: Seq<char>, env: RelayEnv) -> bool {
    env.glm_thinking && (env.knows_glm(model) || env.knows_glm(env.mapped_model(model)))
}

fn complete_history(history: Vec<ChatMessage>) -> (r: Vec<ChatMessage>)
    ensures
        messages_of(r@) == completed_messages(messages_of(history@)),
{
    let mut messages = history;
    let ghost all = messages_of(messages@);
    let mut i: usize = 0;
    while i < messages.len()
        invariant
            i <= messages@.len() == all.len(),
            forall|j: int| 0 <= j < i ==> (#[trigger] messages@[j])@ == completed_message(all[j]),
            forall|j: int| i <= j < all.len() ==> (#[trigger] messages@[j])@ == all[j],
        decreases messages.len() - i,
    {
        complete_message_tool_arguments(&mut messages[i]);
        i = i + 1;
    }
    assert(messages_of(messages@) =~= completed_messages(all));
    messages
}

fn find_newest_droppable(messages: &Vec<ChatMessage>) -> (r: Option<ChatMessage>)
    ensures
        opt_message(r) == newest_droppable(messages_of(messages@)),
{
    let ghost all = messages_of(messages@);
    let mut i: usize = messages.len();
    assert(all.take(i as int) =~= all);
    while i > 0
        invariant
            i <= messages@.len(),
            all == messages_of(messages@),
            newest_droppable(all) == newest_droppable(all.take(i as int)),
        decreases i,
    {
        assert(all.take(i as int).drop_last() =~= all.take(i - 1));
        i = i - 1;
        if is_droppable_contentless(&messages[i]) {
            return Some(messages[i].clone());
        }
    }
    None
}

fn find_system_text(req: &ResponsesRequest) -> (r: Option<&str>)
    ensures
        crate::tools::opt_str(r) == system_text(*req),
{
    if let Some(text) = &req.instructions {
        if !is_blank(text.as_str()) {
            return Some(text.as_str());
        }
    }
    if let Some(text) = &req.system {
        if !is_blank(text.as_str()) {
            return Some(text.as_str());
        }
    }
    None
}

fn open_conversation(req: &ResponsesRequest, history: Vec<ChatMessage>) -> (r: (
    Vec<ChatMessage>,
    Option<ChatMessage>,
))
    ensures
        (messages_of(r.0@), opt_message(r.1)) == opening(*req, messages_of(history@)),
{
    let repaired = complete_history(history);
    let fallback = find_newest_droppable(&repaired);
    let mut messages = retain_with_content(repaired);
    if let Some(text) = find_system_text(req) {
        if messages.len() == 0 || !same_text(messages[0].role.as_str(), "system") {
            let ghost before = messages@;
            let message = ChatMessage::plain("system", Some(JsonValue::text(text)));
            messages.insert(0, message);
            assert(messages_of(messages@) =~= messages_of(before).insert(0, message@));
        }
    }
    (messages, fallback)
}

fn continue_conversation(
    req: &ResponsesRequest,
    history: Vec<ChatMessage>,
    sessions: &SessionStore,
    options: TranslateOptions,
    env: &RelayEnv,
) -> (r: (Vec<ChatMessage>, Option<ChatMessage>))
    ensures
        (messages_of(r.0@), opt_message(r.1)) == continued(
            *req,
            messages_of(history@),
            *sessions,
            options,
            *env,
        ),
{
    let ghost past = messages_of(history@);
    let (mut messages, mut fallback) = open_conversation(req, history);
    match &req.input {
        ResponsesInput::Text(text) => {
            let message = ChatMessage::plain("user", Some(JsonValue::String(text.clone())));
            if is_droppable_contentless(&message) {
                fallback = Some(message.clone());
            }
            let ghost before = messages@;
            messages.push(message);
            assert(messages_of(messages@) =~= messages_of(before).push(message@));
            (messages, fallback)
        },
        ResponsesInput::Messages(items) => {
            let custom_tools = custom_tool_map(req.tools.as_slice(), env);
            let mut state = ConversationState::start(messages, fallback);
            let ghost start = state@;
            let ghost custom = custom_ids(custom_tools);
            let ghost all = input_items(jsons_of(items@), options);
            let mut i: usize = 0;
            assert(all.take(0) =~= Seq::empty());
            while i < items.len()
                invariant
                    i <= items@.len() == all.len(),
                    all == input_items(jsons_of(items@), options),
                    custom == custom_ids(custom_tools),
                    state@ == start.after_items(all.take(i as int), custom, *sessions),
                decreases items.len() - i,
            {
                assert(all.take(i + 1).drop_last() =~= all.take(i as int));
                if options.opencode_go_compat {
                    let item = normalize_opencode_go_input_item(&items[i]);
                    assert(all[i as int] == item@);
                    state.add_item(&item, &custom_tools, sessions);
                } else {
                    assert(all[i as int] == items@[i as int]@);
                    state.add_item(&items[i], &custom_tools, sessions);
                }
                i = i + 1;
            }
            assert(all.take(i as int) =~= all);
            state.flush(sessions);
            (state.messages, state.fallback)
        },
    }
}

/// Whether `r` is the Chat Completions request for a Responses request.
pub open spec fn is_chat_request(
    r: ChatRequest,
    req: ResponsesRequest,
    history: Seq<Message>,
    sessions: SessionStore,
    options: TranslateOptions,
    env: RelayEnv,
) -> bool {
    &&& r.model@ == env.mapped_model(req.model@)
    &&& messages_of(r.messages@) == chat_messages(req, history, sessions, options, env)
    &&& jsons_of(r.tools@) == chat_tools(jsons_of(req.tools@), env.denied())
    &&& r.temperature == req.temperature
    &&& r.max_tokens == req.max_output_tokens
    &&& r.stream_options == if req.stream {
        Some(ChatStreamOptions { include_usage: true })
    } else {
        None
    }
    &&& asks_to_think(req.model@, env) ==> (r.thinking matches Some(t) && t.kind@ == "enabled"@)
    &&& !asks_to_think(req.model@, env) ==> r.thinking is None
    &&& opt_text(r.reasoning_effort) == match req.reasoning {
        Some(reasoning) => opt_text(reasoning.effort),
        None => None,
    }
    &&& r.stream == req.stream
}

/// Converts a Responses API request with optional provider-specific workarounds.
pub fn to_chat_request_with_options(
    req: &ResponsesRequest,
    history: Vec<ChatMessage>,
    sessions: &SessionStore,
    options: TranslateOptions,
    env: &RelayEnv,
) -> (r: ChatRequest)
    ensures
        is_chat_request(r, *req, messages_of(history@), *sessions, options, *env),
{
    let (mut messages, fallback) = continue_conversation(req, history, sessions, options, env);
    drop_contentless_messages(&mut messages);
    if messages.len() == 0 {
        let message = match fallback {
            Some(message) => message,
            None => ChatMessage::plain("user", Some(JsonValue::String(String::new()))),
        };
        messages.push(message);
        assert(messages_of(messages@) =~= seq![message@]);
    }
    let model = map_model_name(req.model.as_str(), env);
    let think = env.glm_thinking && (is_glm_like_model(req.model.as_str(), env)
        || is_glm_like_model(model.as_str(), env));
    ChatRequest {
        model,
        messages,
        tools: convert_tools(req.tools.as_slice(), env),
        temperature: match &req.temperature {
            Some(n) => Some(n.clone()),
            None => None,
        },
        max_tokens: req.max_output_tokens,
        stream_options: if req.stream {
            Some(ChatStreamOptions { include_usage: true })
        } else {
            None
        },
        thinking: if think {
            Some(ChatThinking { kind: "enabled".to_owned() })
        } else {
            None
        },
        reasoning_effort: match &req.reasoning {
            Some(reasoning) => clone_text(&reasoning.effort),
            None => None,
        },
        stream: req.stream,
    }
}

/// Converts a Responses API request, after a history, into a Chat Completions
/// request.
pub fn to_chat_request(
    req: &ResponsesRequest,
    history: Vec<ChatMessage>,
    sessions: &SessionStore,
    env: &RelayEnv,
) -> (r: ChatRequest)
    ensures
        is_chat_request(
            r,
            *req,
            messages_of(history@),
            *sessions,
            (TranslateOptions { opencode_go_compat: false }),
            *env,
        ),
{
    to_chat_request_with_options(req, history, sessions, TranslateOptions::default(), env)
}

/// A Chat Completions request always has a message, and none without content
/// unless that is the only one.
pub proof fn chat_messages_have_content(
    req: ResponsesRequest,
    history: Seq<Message>,
    sessions: SessionStore,
    options: TranslateOptions,
    env: RelayEnv,
)
    ensures
        chat_messages(req, history, sessions, options, env).len() > 0,
        chat_messages(req, history, sessions, options, env).len() > 1 ==> forall|i: int|
            0 <= i < chat_messages(req, history, sessions, options, env).len() ==> !droppable(
                #[trigger] chat_messages(req, history, sessions, options, env)[i],
            ),
{
    let (messages, fallback) = continued(req, history, sessions, options, env);
    crate::content::dropping_leaves_content(messages);
}

pub(crate) proof fn lemma_opening_keeps_the_calls(req: ResponsesRequest, history: Seq<Message>)
    ensures
        all_made_calls(opening(req, history).0) == all_made_calls(history),
        all_answered_calls(opening(req, history).0) == all_answered_calls(history),
{
    let kept = with_content(completed_messages(history));
    repair_keeps_the_calls(history);
    if let Some(text) = system_text(req) {
        lemma_front_keeps_the_calls(kept, Message::plain("system"@, Some(Json::String(text))));
    }
}

proof fn lemma_newest_droppable(messages: Seq<Message>)
    ensures
        newest_droppable(messages) matches Some(m) ==> droppable(m),
    decreases messages.len(),
{
    if messages.len() > 0 {
        lemma_newest_droppable(messages.drop_last());
    }
}

proof fn lemma_fallback_makes_no_calls(
    c: Conversation,
    items: Seq<Json>,
    custom: Map<Seq<char>, ToolId>,
    sessions: SessionStore,
)
    requires
        c.fallback matches Some(m) ==> m.tool_calls is None && m.tool_call_id is None,
    ensures
        c.after_items(items, custom, sessions).fallback matches Some(m) ==> m.tool_calls is None
            && m.tool_call_id is None,
    decreases items.len(),
{
    if items.len() > 0 {
        lemma_fallback_makes_no_calls(c, items.drop_last(), custom, sessions);
    }
}

proof fn lemma_single_message_repeats_nothing(m: Message)
    requires
        m.tool_calls is None,
        m.tool_call_id is None,
    ensures
        nothing_repeated(seq![m]),
{
    let none = Seq::<Message>::empty();
    lemma_end_adds_its_calls(none, m);
    assert(none.push(m) =~= seq![m]);
    assert(all_made_calls(seq![m]).len() == 0);
    assert(all_answered_calls(seq![m]).len() == 0);
}

/// A request makes no call twice and answers none twice, unless its history does.
pub proof fn chat_messages_repeat_nothing(
    req: ResponsesRequest,
    history: Seq<Message>,
    sessions: SessionStore,
    options: TranslateOptions,
    env: RelayEnv,
)
    requires
        nothing_repeated(history),
    ensures
        nothing_repeated(chat_messages(req, history, sessions, options, env)),
{
    let (start, newest) = opening(req, history);
    let (messages, fallback) = continued(req, history, sessions, options, env);
    lemma_opening_keeps_the_calls(req, history);
    lemma_newest_droppable(completed_messages(history));
    match req.input {
        ResponsesInput::Text(text) => {
            lemma_end_adds_its_calls(start, user_message(text@));
            assert(all_made_calls(messages) =~= all_made_calls(start));
            assert(all_answered_calls(messages) =~= all_answered_calls(start));
        },
        ResponsesInput::Messages(items) => {
            let custom = last_wins(custom_entries(jsons_of(req.tools@), env.denied()));
            let all = input_items(jsons_of(items@), options);
            input_items_repeat_nothing(start, newest, all, custom, sessions);
            lemma_fallback_makes_no_calls(started(start, newest), all, custom, sessions);
        },
    }
    assert(nothing_repeated(messages));
    dropping_keeps_the_calls(messages);
    crate::content::dropping_leaves_content(messages);
    if messages.len() == 0 {
        match fallback {
            Some(message) => lemma_single_message_repeats_nothing(message),
            None => lemma_single_message_repeats_nothing(user_message(Seq::empty())),
        }
    } else if all_droppable(messages) {
        assert(droppable(messages[messages.len() - 1]));
        lemma_single_message_repeats_nothing(messages.last());
    }
}

/// Only the first message of a request may be a system message, unless its
/// history has one elsewhere: a system message never parts a call from its
/// output.
pub proof fn chat_messages_have_system_in_front(
    req: ResponsesRequest,
    history: Seq<Message>,
    sessions: SessionStore,
    options: TranslateOptions,
    env: RelayEnv,
)
    requires
        system_only_in_front(history),
    ensures
        system_only_in_front(chat_messages(req, history, sessions, options, env)),
{
    reveal_strlit("user");
    reveal_strlit("system");
    assert("user"@.len() == 4 && "system"@.len() == 6);
    let repaired = completed_messages(history);
    assert forall|i: int| 0 < i < repaired.len() implies (#[trigger] repaired[i]).role
        != "system"@ by {
        assert(repaired[i].role == history[i].role);
    }
    let kept = with_content(repaired);
    dropping_keeps_system_in_front(repaired);
    let (start, newest) = opening(req, history);
    assert(system_only_in_front(start)) by {
        assert forall|i: int| 0 < i < start.len() implies (#[trigger] start[i]).role
            != "system"@ by {
            if start != kept {
                assert(start[i] == kept[i - 1]);
            }
        }
    }
    let (messages, fallback) = continued(req, history, sessions, options, env);
    match req.input {
        ResponsesInput::Text(text) => {},
        ResponsesInput::Messages(items) => {
            let custom = last_wins(custom_entries(jsons_of(req.tools@), env.denied()));
            let all = input_items(jsons_of(items@), options);
            system_messages_stay_in_front(started(start, newest), all, custom, sessions);
        },
    }
    assert(system_only_in_front(messages));
    dropping_keeps_system_in_front(messages);
}

/// A message of the history that has content, and is no system message, is in
/// the request, its tool calls with their arguments.
pub proof fn history_reaches_the_upstream(
    req: ResponsesRequest,
    history: Seq<Message>,
    sessions: SessionStore,
    options: TranslateOptions,
    env: RelayEnv,
    i: int,
)
    requires
        0 <= i < history.len(),
        !droppable(history[i]),
        history[i].role != "system"@,
    ensures
        chat_messages(req, history, sessions, options, env).contains(
            completed_message(history[i]),
        ),
{
    let m = completed_message(history[i]);
    let repaired = completed_messages(history);
    let keep = |m: Message| !droppable(m);
    let kept = with_content(repaired);
    assert(repaired[i] == m);
    assert(keep(m));
    assert(kept.contains(m)) by {
        broadcast use vstd::seq_lib::group_filter_ensures;

        assert(repaired.filter(keep).contains(repaired[i]));
    }
    let (start, newest) = opening(req, history);
    assert(start.contains(m)) by {
        let j = choose|j: int| 0 <= j < kept.len() && kept[j] == m;
        if start != kept {
            assert(start[j + 1] == m);
        }
    }
    let (messages, fallback) = continued(req, history, sessions, options, env);
    match req.input {
        ResponsesInput::Text(text) => {
            let j = choose|j: int| 0 <= j < start.len() && start[j] == m;
            assert(messages[j] == m);
        },
        ResponsesInput::Messages(items) => {
            let custom = last_wins(custom_entries(jsons_of(req.tools@), env.denied()));
            let all = input_items(jsons_of(items@), options);
            input_items_keep_messages(started(start, newest), all, custom, sessions, m);
        },
    }
    let j = choose|j: int| 0 <= j < messages.len() && messages[j] == m;
    crate::content::dropping_keeps_content(messages, j);
}

/// A plain message among the input items, unless it is without content, is in
/// the request.
pub proof fn plain_messages_reach_the_upstream(
    req: ResponsesRequest,
    history: Seq<Message>,
    sessions: SessionStore,
    options: TranslateOptions,
    env: RelayEnv,
    i: int,
)
    requires
        req.input matches ResponsesInput::Messages(items) && 0 <= i < items@.len() && {
            let item = input_items(jsons_of(items@), options)[i];
            is_plain_message(item) && !droppable(chat_message(item))
        },
    ensures
        req.input matches ResponsesInput::Messages(items) && chat_messages(
            req,
            history,
            sessions,
            options,
            env,
        ).contains(chat_message(input_items(jsons_of(items@), options)[i])),
{
    if let ResponsesInput::Messages(items) = req.input {
        let (start, newest) = opening(req, history);
        let custom = last_wins(custom_entries(jsons_of(req.tools@), env.denied()));
        let all = input_items(jsons_of(items@), options);
        plain_messages_are_taken(started(start, newest), all, custom, sessions, i);
        let messages = continued(req, history, sessions, options, env).0;
        let m = chat_message(all[i]);
        let j = choose|j: int| 0 <= j < messages.len() && messages[j] == m;
        crate::content::dropping_keeps_content(messages, j);
    }
}

pub(crate) proof fn lemma_first_is_kept(messages: Seq<Message>)
    requires
        messages.len() > 0,
        !droppable(messages[0]),
    ensures
        with_content(messages).len() > 0,
        with_content(messages)[0] == messages[0],
    decreases messages.len(),
{
    reveal(Seq::filter);
    if messages.len() > 1 {
        lemma_first_is_kept(messages.drop_last());
    } else {
        assert(with_content(messages.drop_last()).len() == 0);
    }
}

proof fn lemma_system_stays_first(
    c: Conversation,
    items: Seq<Json>,
    custom: Map<Seq<char>, ToolId>,
    sessions: SessionStore,
)
    requires
        c.messages.len() > 0,
        c.messages[0].role == "system"@,
        !droppable(c.messages[0]),
        forall|i: int|
            0 <= i < items.len() ==> contentless_item(#[trigger] items[i]) || !droppable(
                chat_message(items[i]),
            ),
    ensures
        c.after_items(items, custom, sessions).messages.len() > 0,
        c.after_items(items, custom, sessions).messages[0].role == "system"@,
        !droppable(c.after_items(items, custom, sessions).messages[0]),
    decreases items.len(),
{
    if items.len() > 0 {
        let rest = items.drop_last();
        assert forall|i: int| 0 <= i < rest.len() implies contentless_item(#[trigger] rest[i])
            || !droppable(chat_message(rest[i])) by {
            assert(rest[i] == items[i]);
        }
        lemma_system_stays_first(c, rest, custom, sessions);
        let item = items[items.len() - 1];
        assert(contentless_item(item) || !droppable(chat_message(item)));
    }
}

/// A request with a system prompt starts with a system message, whatever the
/// history: with that prompt, or with one from the history or the input items
/// that stands in its place.
pub proof fn system_prompt_comes_first(
    req: ResponsesRequest,
    history: Seq<Message>,
    sessions: SessionStore,
    options: TranslateOptions,
    env: RelayEnv,
)
    requires
        system_text(req) is Some,
        req.input matches ResponsesInput::Messages(items) ==> forall|i: int|
            #![trigger input_items(jsons_of(items@), options)[i]]
            0 <= i < items@.len() ==> contentless_item(input_items(jsons_of(items@), options)[i])
                || !droppable(chat_message(input_items(jsons_of(items@), options)[i])),
    ensures
        chat_messages(req, history, sessions, options, env)[0].role == "system"@,
{
    let repaired = completed_messages(history);
    let kept = with_content(repaired);
    let keep = |m: Message| !droppable(m);
    let (start, newest) = opening(req, history);
    assert(start.len() > 0 && start[0].role == "system"@);
    assert(!droppable(start[0])) by {
        if start == kept {
            broadcast use vstd::seq_lib::group_filter_ensures;

            assert(keep(repaired.filter(keep)[0]));
        }
    }
    let (messages, fallback) = continued(req, history, sessions, options, env);
    match req.input {
        ResponsesInput::Text(text) => {},
        ResponsesInput::Messages(items) => {
            let custom = last_wins(custom_entries(jsons_of(req.tools@), env.denied()));
            let all = input_items(jsons_of(items@), options);
            assert forall|i: int| 0 <= i < all.len() implies contentless_item(#[trigger] all[i])
                || !droppable(chat_message(all[i])) by {
                assert(input_items(jsons_of(items@), options)[i] == all[i]);
            }
            lemma_system_stays_first(started(start, newest), all, custom, sessions);
        },
    }
    assert(messages.len() > 0 && messages[0].role == "system"@ && !droppable(messages[0]));
    lemma_first_is_kept(messages);
}

} // verus!
