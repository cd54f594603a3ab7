//! The conversation that the input items of a request make, item by item.
//!
//! Consecutive tool calls are gathered into one assistant message, since
//! providers want all the calls of a turn in one message. A call or a tool
//! output that is there already is not repeated, and a system message goes to
//! the front, so that it never parts a call from its output.
use vstd::prelude::*;

use crate::calls::{completed, completed_tool_arguments, custom_arguments, one_member};
use crate::content::{
    chat_message, contentless_item, is_contentless_response_message, response_message_to_chat,
};
use crate::env::NameSet;
use crate::items::{output_text, response_output_text};
use crate::json::{Json, JsonMap, JsonValue, json_text, jsons_of};
use crate::session::SessionStore;
use crate::text::same_text;
use crate::tool_names::{
    CustomToolMap, ToolId, custom_ids, replayed_name, response_function_name_for_chat,
};
use crate::tools::{argument_field, custom_argument_field};
use crate::types::{ChatMessage, Message, messages_of, opt_text};

verus! {

/// The state of a conversation that is being put together.
pub struct Conversation {
    /// The messages so far.
    pub messages: Seq<Message>,
    /// The newest message without content, for want of any other.
    pub fallback: Option<Message>,
    /// The IDs of the calls that are there already.
    pub seen_calls: Set<Seq<char>>,
    /// The IDs of the calls whose output is there already.
    pub seen_outputs: Set<Seq<char>>,
    /// The tool calls that are being gathered.
    pub calls: Seq<Json>,
    /// The reasoning that goes with the gathered calls.
    pub reasoning: Option<Seq<char>>,
}

/// Whether an input item is a tool call.
pub open spec fn is_call(item: Json) -> bool {
    item.has_str("type"@, "function_call"@) || item.has_str("type"@, "custom_tool_call"@)
}

/// Whether an input item is the output of a tool call.
pub open spec fn is_output(item: Json) -> bool {
    item.has_str("type"@, "function_call_output"@) || item.has_str(
        "type"@,
        "custom_tool_call_output"@,
    )
}

/// The field that carries the input of a custom tool: the declared one, where
/// the tool is declared.
pub open spec fn declared_field(name: Seq<char>, custom: Map<Seq<char>, ToolId>) -> Seq<char> {
    if custom.contains_key(name) {
        custom[name].1
    } else {
        argument_field(name)
    }
}

/// The arguments of a replayed call.
pub open spec fn replayed_arguments(item: Json, custom: Map<Seq<char>, ToolId>) -> Seq<char> {
    if item.has_str("type"@, "custom_tool_call"@) {
        json_text(
            one_member(
                declared_field(replayed_name(item), custom),
                Json::String(item.str_or("input"@, ""@)),
            ),
        )
    } else {
        match item.str_at("arguments"@) {
            Some(arguments) => completed(arguments),
            None => "{}"@,
        }
    }
}

/// A Chat Completions tool call.
pub open spec fn tool_call(id: Seq<char>, name: Seq<char>, arguments: Seq<char>) -> Json {
    Json::Object(
        Map::<Seq<char>, Json>::empty().insert("id"@, Json::String(id)).insert(
            "type"@,
            Json::String("function"@),
        ).insert(
            "function"@,
            Json::Object(
                Map::<Seq<char>, Json>::empty().insert("name"@, Json::String(name)).insert(
                    "arguments"@,
                    Json::String(arguments),
                ),
            ),
        ),
    )
}

/// The ID of the call that an input item makes or answers.
pub open spec fn item_call_id(item: Json) -> Seq<char> {
    item.str_or("call_id"@, ""@)
}

/// The assistant message around some tool calls.
pub open spec fn calling_message(calls: Seq<Json>, reasoning: Option<Seq<char>>) -> Message {
    Message {
        role: "assistant"@,
        content: None,
        reasoning_content: reasoning,
        tool_calls: Some(calls),
        tool_call_id: None,
        name: None,
    }
}

/// The tool message with the output of a call.
pub open spec fn output_message(item: Json) -> Message {
    Message {
        role: "tool"@,
        content: Some(Json::String(output_text(item.get("output"@)))),
        reasoning_content: None,
        tool_calls: None,
        tool_call_id: Some(item_call_id(item)),
        name: None,
    }
}

/// Messages with a system message at the front, in place of the one there.
pub open spec fn with_system_in_front(messages: Seq<Message>, system: Message) -> Seq<Message> {
    if messages.len() > 0 && messages[0].role == "system"@ {
        messages.update(0, system)
    } else {
        messages.insert(0, system)
    }
}

impl Conversation {
    /// After a tool call: gathered, unless it is there already.
    pub open spec fn after_call(
        self,
        item: Json,
        custom: Map<Seq<char>, ToolId>,
        sessions: SessionStore,
    ) -> Conversation {
        let id = item_call_id(item);
        if self.seen_calls.contains(id) {
            self
        } else {
            Conversation {
                seen_calls: self.seen_calls.insert(id),
                calls: self.calls.push(
                    tool_call(id, replayed_name(item), replayed_arguments(item, custom)),
                ),
                reasoning: if self.reasoning is Some {
                    self.reasoning
                } else {
                    sessions.call_reasoning(id)
                },
                ..self
            }
        }
    }

    /// After the gathered calls, where there are any, became a message.
    pub open spec fn flushed(self, sessions: SessionStore) -> Conversation {
        if self.calls.len() == 0 {
            self
        } else {
            let message = calling_message(self.calls, self.reasoning);
            let reasoning = if self.reasoning is Some {
                self.reasoning
            } else {
                sessions.turn_reasoning(self.messages, message)
            };
            Conversation {
                messages: self.messages.push(calling_message(self.calls, reasoning)),
                calls: Seq::empty(),
                reasoning: None,
                ..self
            }
        }
    }

    /// After the output of a call, unless that is there already.
    pub open spec fn after_output(self, item: Json) -> Conversation {
        let id = item_call_id(item);
        if self.seen_outputs.contains(id) {
            self
        } else {
            Conversation {
                seen_outputs: self.seen_outputs.insert(id),
                messages: self.messages.push(output_message(item)),
                ..self
            }
        }
    }

    /// After a message: an assistant message gets the reasoning of its turn, a
    /// system message goes to the front.
    pub open spec fn after_message(self, item: Json, sessions: SessionStore) -> Conversation {
        let message = chat_message(item);
        Conversation {
            messages: if message.role == "assistant"@ {
                self.messages.push(
                    Message {
                        reasoning_content: sessions.turn_reasoning(self.messages, message),
                        ..message
                    },
                )
            } else if message.role == "system"@ {
                with_system_in_front(self.messages, message)
            } else {
                self.messages.push(message)
            },
            ..self
        }
    }

    /// After an input item. A message without content is only kept in mind,
    /// and reasoning is left out: it is kept elsewhere.
    pub open spec fn after_item(
        self,
        item: Json,
        custom: Map<Seq<char>, ToolId>,
        sessions: SessionStore,
    ) -> Conversation {
        if contentless_item(item) {
            Conversation { fallback: Some(chat_message(item)), ..self }
        } else if is_call(item) {
            self.after_call(item, custom, sessions)
        } else if is_output(item) {
            self.flushed(sessions).after_output(item)
        } else if item.has_str("type"@, "reasoning"@) {
            self.flushed(sessions)
        } else {
            self.flushed(sessions).after_message(item, sessions)
        }
    }

    /// After some input items.
    pub open spec fn after_items(
        self,
        items: Seq<Json>,
        custom: Map<Seq<char>, ToolId>,
        sessions: SessionStore,
    ) -> Conversation
        decreases items.len(),
    {
        if items.len() == 0 {
            self
        } else {
            self.after_items(items.drop_last(), custom, sessions).after_item(
                items.last(),
                custom,
                sessions,
            )
        }
    }
}

/// The IDs of some tool calls.
pub open spec fn call_ids(calls: Seq<Json>) -> Seq<Seq<char>>
    decreases calls.len(),
{
    if calls.len() == 0 {
        Seq::empty()
    } else {
        match calls.last().str_at("id"@) {
            Some(id) => call_ids(calls.drop_last()).push(id),
            None => call_ids(calls.drop_last()),
        }
    }
}

/// The IDs of the calls that a message makes.
pub open spec fn made_calls(message: Message) -> Seq<Seq<char>> {
    match message.tool_calls {
        Some(calls) => call_ids(calls),
        None => Seq::empty(),
    }
}

/// The ID of the call that a message answers, as a list.
pub open spec fn answered_call(message: Message) -> Seq<Seq<char>> {
    match message.tool_call_id {
        Some(id) => seq![id],
        None => Seq::empty(),
    }
}

/// What a function finds in some messages, one after the other.
pub open spec fn gathered(
    messages: Seq<Message>,
    find: spec_fn(Message) -> Seq<Seq<char>>,
) -> Seq<Seq<char>>
    decreases messages.len(),
{
    if messages.len() == 0 {
        Seq::empty()
    } else {
        gathered(messages.drop_last(), find) + find(messages.last())
    }
}

/// The IDs of the calls that some messages make, in their order.
pub open spec fn all_made_calls(messages: Seq<Message>) -> Seq<Seq<char>> {
    gathered(messages, |m: Message| made_calls(m))
}

/// The IDs of the calls that some messages answer, in their order.
pub open spec fn all_answered_calls(messages: Seq<Message>) -> Seq<Seq<char>> {
    gathered(messages, |m: Message| answered_call(m))
}

/// The conversation that starts with some messages.
pub open spec fn started(messages: Seq<Message>, fallback: Option<Message>) -> Conversation {
    Conversation {
        messages,
        fallback,
        seen_calls: all_made_calls(messages).to_set() + all_answered_calls(messages).to_set(),
        seen_outputs: all_answered_calls(messages).to_set(),
        calls: Seq::empty(),
        reasoning: None,
    }
}

/// The executable state of a conversation.
pub struct ConversationState {
    pub messages: Vec<ChatMessage>,
    pub fallback: Option<ChatMessage>,
    pub seen_calls: NameSet,
    pub seen_outputs: NameSet,
    pub calls: Vec<JsonValue>,
    pub reasoning: Option<String>,
}

/// The model of an optional message.
pub open spec fn opt_message(m: Option<ChatMessage>) -> Option<Message> {
    match m {
        Some(m) => Some(m@),
        None => None,
    }
}

impl View for ConversationState {
    type V = Conversation;

    open spec fn view(&self) -> Conversation {
        Conversation {
            messages: messages_of(self.messages@),
            fallback: opt_message(self.fallback),
            seen_calls: self.seen_calls@,
            seen_outputs: self.seen_outputs@,
            calls: jsons_of(self.calls@),
            reasoning: opt_text(self.reasoning),
        }
    }
}

/// A Chat Completions tool call.
pub fn tool_call_value(id: &str, name: &str, arguments: String) -> (r: JsonValue)
    ensures
        r@ == tool_call(id@, name@, arguments@),
{
    let mut function = JsonMap::new();
    function.insert("name".to_owned(), JsonValue::text(name));
    function.insert("arguments".to_owned(), JsonValue::String(arguments));
    let mut call = JsonMap::new();
    call.insert("id".to_owned(), JsonValue::text(id));
    call.insert("type".to_owned(), JsonValue::text("function"));
    call.insert("function".to_owned(), JsonValue::Object(function));
    JsonValue::Object(call)
}

/// The arguments of a replayed call.
fn arguments_for_chat(item: &JsonValue, name: &str, custom_tools: &CustomToolMap) -> (r: String)
    requires
        name@ == replayed_name(item@),
    ensures
        r@ == replayed_arguments(item@, custom_ids(*custom_tools)),
{
    if item.has_str("type", "custom_tool_call") {
        let field = match custom_tools.get(name) {
            Some(tool) => tool.argument_field.as_str(),
            None => custom_argument_field(name),
        };
        custom_arguments(field, JsonValue::text(item.str_or("input", "")))
    } else {
        match item.get_str("arguments") {
            Some(arguments) => completed_tool_arguments(arguments).to_owned(),
            None => "{}".to_owned(),
        }
    }
}

fn insert_call_ids(ids: &mut NameSet, calls: &Vec<JsonValue>)
    ensures
        final(ids)@ == old(ids)@ + call_ids(jsons_of(calls@)).to_set(),
{
    let ghost all = jsons_of(calls@);
    let ghost start = ids@;
    let mut i: usize = 0;
    assert(all.take(0) =~= Seq::empty());
    assert(start + call_ids(all.take(0)).to_set() =~= start);
    while i < calls.len()
        invariant
            i <= calls@.len(),
            all == jsons_of(calls@),
            ids@ == start + call_ids(all.take(i as int)).to_set(),
        decreases calls.len() - i,
    {
        let ghost before = call_ids(all.take(i as int));
        assert(all.take(i + 1).drop_last() =~= all.take(i as int));
        if let Some(id) = calls[i].get_str("id") {
            ids.insert(id.to_owned());
            proof {
                crate::text::lemma_push_to_set(before, id@);
                assert(ids@ =~= start + call_ids(all.take(i + 1)).to_set());
            }
        }
        i = i + 1;
    }
    assert(all.take(i as int) =~= all);
}

proof fn lemma_both_to_set(a: Seq<Seq<char>>, b: Seq<Seq<char>>)
    ensures
        (a + b).to_set() == a.to_set() + b.to_set(),
{
    assert forall|k: Seq<char>| (a + b).contains(k) == (a.contains(k) || b.contains(k)) by {
        if a.contains(k) {
            let i = choose|i: int| 0 <= i < a.len() && a[i] == k;
            assert((a + b)[i] == k);
        }
        if b.contains(k) {
            let i = choose|i: int| 0 <= i < b.len() && b[i] == k;
            assert((a + b)[a.len() + i] == k);
        }
        if (a + b).contains(k) {
            let i = choose|i: int| 0 <= i < (a + b).len() && (a + b)[i] == k;
            if i < a.len() {
                assert(a[i] == k);
            } else {
                assert(b[i - a.len()] == k);
            }
        }
    }
    assert((a + b).to_set() =~= a.to_set() + b.to_set());
}

impl ConversationState {
    /// The conversation that starts with some messages.
    pub fn start(messages: Vec<ChatMessage>, fallback: Option<ChatMessage>) -> (r:
        ConversationState)
        ensures
            r@ == started(messages_of(messages@), opt_message(fallback)),
    {
        let ghost all = messages_of(messages@);
        let mut seen_calls = NameSet::new();
        let mut seen_outputs = NameSet::new();
        let mut i: usize = 0;
        assert(all.take(0) =~= Seq::empty());
        assert(all_made_calls(all.take(0)).to_set() + all_answered_calls(all.take(0)).to_set()
            =~= Set::empty());
        assert(all_answered_calls(all.take(0)).to_set() =~= Set::empty());
        while i < messages.len()
            invariant
                i <= messages@.len(),
                all == messages_of(messages@),
                seen_calls@ == all_made_calls(all.take(i as int)).to_set() + all_answered_calls(
                    all.take(i as int),
                ).to_set(),
                seen_outputs@ == all_answered_calls(all.take(i as int)).to_set(),
            decreases messages.len() - i,
        {
            let message = &messages[i];
            proof {
                assert(all.take(i + 1).drop_last() =~= all.take(i as int));
                lemma_both_to_set(all_made_calls(all.take(i as int)), made_calls(message@));
                lemma_both_to_set(all_answered_calls(all.take(i as int)), answered_call(message@));
            }
            if let Some(calls) = &message.tool_calls {
                insert_call_ids(&mut seen_calls, calls);
            }
            if let Some(id) = &message.tool_call_id {
                seen_calls.insert(id.clone());
                seen_outputs.insert(id.clone());
                assert(seq![id@].to_set() =~= Set::empty().insert(id@)) by {
                    assert(seq![id@][0] == id@);
                }
            } else {
                assert(Seq::<Seq<char>>::empty().to_set() =~= Set::empty());
            }
            assert(Seq::<Seq<char>>::empty().to_set() =~= Set::empty());
            assert(seen_calls@ =~= all_made_calls(all.take(i + 1)).to_set() + all_answered_calls(
                all.take(i + 1),
            ).to_set());
            assert(seen_outputs@ =~= all_answered_calls(all.take(i + 1)).to_set());
            i = i + 1;
        }
        assert(all.take(i as int) =~= all);
        let calls: Vec<JsonValue> = Vec::new();
        assert(jsons_of(calls@) =~= Seq::empty());
        ConversationState { messages, fallback, seen_calls, seen_outputs, calls, reasoning: None }
    }

    fn add_call(&mut self, item: &JsonValue, custom_tools: &CustomToolMap, sessions: &SessionStore)
        ensures
            final(self)@ == old(self)@.after_call(item@, custom_ids(*custom_tools), *sessions),
    {
        let id = item.str_or("call_id", "");
        if !self.seen_calls.insert(id.to_owned()) {
            assert(self.seen_calls@ =~= old(self).seen_calls@);
            return ;
        }
        let name = response_function_name_for_chat(item);
        let arguments = arguments_for_chat(item, name.as_str(), custom_tools);
        if self.reasoning.is_none() {
            self.reasoning = sessions.get_reasoning(id);
        }
        let ghost before = self.calls@;
        let call = tool_call_value(id, name.as_str(), arguments);
        self.calls.push(call);
        assert(jsons_of(self.calls@) =~= jsons_of(before).push(call@));
    }

    /// Turns the gathered calls, where there are any, into a message.
    pub fn flush(&mut self, sessions: &SessionStore)
        ensures
            final(self)@ == old(self)@.flushed(*sessions),
    {
        if self.calls.len() == 0 {
            return ;
        }
        let mut calls: Vec<JsonValue> = Vec::new();
        std::mem::swap(&mut calls, &mut self.calls);
        let mut message = ChatMessage {
            role: "assistant".to_owned(),
            content: None,
            reasoning_content: self.reasoning.take(),
            tool_calls: Some(calls),
            tool_call_id: None,
            name: None,
        };
        if message.reasoning_content.is_none() {
            message.reasoning_content = sessions.get_turn_reasoning(&self.messages, &message);
        }
        let ghost before = self.messages@;
        self.messages.push(message);
        assert(messages_of(self.messages@) =~= messages_of(before).push(message@));
        assert(jsons_of(self.calls@) =~= Seq::empty());
    }

    fn add_output(&mut self, item: &JsonValue)
        ensures
            final(self)@ == old(self)@.after_output(item@),
    {
        let id = item.str_or("call_id", "");
        if !self.seen_outputs.insert(id.to_owned()) {
            assert(self.seen_outputs@ =~= old(self).seen_outputs@);
            return ;
        }
        let message = ChatMessage {
            role: "tool".to_owned(),
            content: Some(JsonValue::String(response_output_text(item.get("output")))),
            reasoning_content: None,
            tool_calls: None,
            tool_call_id: Some(id.to_owned()),
            name: None,
        };
        let ghost before = self.messages@;
        self.messages.push(message);
        assert(messages_of(self.messages@) =~= messages_of(before).push(message@));
    }

    fn add_message(&mut self, item: &JsonValue, sessions: &SessionStore)
        ensures
            final(self)@ == old(self)@.after_message(item@, *sessions),
    {
        let mut message = response_message_to_chat(item);
        let ghost before = self.messages@;
        if same_text(message.role.as_str(), "assistant") {
            message.reasoning_content = sessions.get_turn_reasoning(&self.messages, &message);
            self.messages.push(message);
            assert(messages_of(self.messages@) =~= messages_of(before).push(message@));
        } else if same_text(message.role.as_str(), "system") {
            if self.messages.len() > 0 && same_text(self.messages[0].role.as_str(), "system") {
                self.messages.set(0, message);
                assert(messages_of(self.messages@) =~= messages_of(before).update(0, message@));
            } else {
                self.messages.insert(0, message);
                assert(messages_of(self.messages@) =~= messages_of(before).insert(0, message@));
            }
        } else {
            self.messages.push(message);
            assert(messages_of(self.messages@) =~= messages_of(before).push(message@));
        }
    }

    /// Takes an input item into the conversation.
    pub fn add_item(
        &mut self,
        item: &JsonValue,
        custom_tools: &CustomToolMap,
        sessions: &SessionStore,
    )
        ensures
            final(self)@ == old(self)@.after_item(item@, custom_ids(*custom_tools), *sessions),
    {
        if is_contentless_response_message(item) {
            self.fallback = Some(response_message_to_chat(item));
        } else if item.has_str("type", "function_call") || item.has_str(
            "type",
            "custom_tool_call",
        ) {
            self.add_call(item, custom_tools, sessions);
        } else if item.has_str("type", "function_call_output") || item.has_str(
            "type",
            "custom_tool_call_output",
        ) {
            self.flush(sessions);
            self.add_output(item);
        } else if item.has_str("type", "reasoning") {
            self.flush(sessions);
        } else {
            self.flush(sessions);
            self.add_message(item, sessions);
        }
    }
}

} // verus!
