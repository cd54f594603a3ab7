//! The messages and envelopes of the two protocols.
use vstd::prelude::*;

use crate::json::{Json, JsonValue, jsons_of};

verus! {

/// The model of an optional string.
pub open spec fn opt_text(s: Option<String>) -> Option<Seq<char>> {
    match s {
        Some(t) => Some(t@),
        None => None,
    }
}

/// The model of an optional JSON value.
pub open spec fn opt_json(v: Option<JsonValue>) -> Option<Json> {
    match v {
        Some(j) => Some(j@),
        None => None,
    }
}

/// The model of an optional reference to a JSON value.
pub open spec fn opt_value(v: Option<&JsonValue>) -> Option<Json> {
    match v {
        Some(j) => Some(j@),
        None => None,
    }
}

/// The model of an optional list of JSON values.
pub open spec fn opt_jsons(v: Option<Vec<JsonValue>>) -> Option<Seq<Json>> {
    match v {
        Some(items) => Some(jsons_of(items@)),
        None => None,
    }
}

/// The input of a Responses request.
#[derive(Debug)]
pub enum ResponsesInput {
    Text(String),
    Messages(Vec<JsonValue>),
}

/// The reasoning settings of a Responses request.
#[derive(Debug)]
pub struct ResponsesReasoning {
    pub effort: Option<String>,
}

/// A request of the Responses API.
#[derive(Debug)]
pub struct ResponsesRequest {
    pub model: String,
    pub input: ResponsesInput,
    pub previous_response_id: Option<String>,
    pub tools: Vec<JsonValue>,
    pub stream: bool,
    pub temperature: Option<serde_json::Number>,
    pub max_output_tokens: Option<u64>,
    pub system: Option<String>,
    pub instructions: Option<String>,
    pub reasoning: Option<ResponsesReasoning>,
}

/// The model of a Chat Completions message.
pub struct Message {
    pub role: Seq<char>,
    pub content: Option<Json>,
    pub reasoning_content: Option<Seq<char>>,
    pub tool_calls: Option<Seq<Json>>,
    pub tool_call_id: Option<Seq<char>>,
    pub name: Option<Seq<char>>,
}

impl Message {
    /// A message that has a role and a content, and nothing else.
    pub open spec fn plain(role: Seq<char>, content: Option<Json>) -> Message {
        Message {
            role,
            content,
            reasoning_content: None,
            tool_calls: None,
            tool_call_id: None,
            name: None,
        }
    }

    /// The text of a message: its content where that is a string, else nothing.
    pub open spec fn text(self) -> Seq<char> {
        match self.content {
            Some(Json::String(s)) => s,
            _ => Seq::empty(),
        }
    }
}

/// A Chat Completions message.
#[derive(Debug)]
pub struct ChatMessage {
    pub role: String,
    pub content: Option<JsonValue>,
    pub reasoning_content: Option<String>,
    pub tool_calls: Option<Vec<JsonValue>>,
    pub tool_call_id: Option<String>,
    pub name: Option<String>,
}

impl View for ChatMessage {
    type V = Message;

    open spec fn view(&self) -> Message {
        Message {
            role: self.role@,
            content: opt_json(self.content),
            reasoning_content: opt_text(self.reasoning_content),
            tool_calls: opt_jsons(self.tool_calls),
            tool_call_id: opt_text(self.tool_call_id),
            name: opt_text(self.name),
        }
    }
}

/// The models of a list of messages.
pub open spec fn messages_of(messages: Seq<ChatMessage>) -> Seq<Message> {
    messages.map_values(|m: ChatMessage| m@)
}

/// A copy of a list of JSON values.
pub fn clone_values(items: &Vec<JsonValue>) -> (r: Vec<JsonValue>)
    ensures
        jsons_of(r@) == jsons_of(items@),
{
    let mut out: Vec<JsonValue> = Vec::new();
    let mut i: usize = 0;
    while i < items.len()
        invariant
            i <= items@.len(),
            out@.len() == i,
            forall|j: int| 0 <= j < i ==> (#[trigger] out@[j])@ == items@[j]@,
        decreases items.len() - i,
    {
        out.push(items[i].clone());
        i = i + 1;
    }
    assert(jsons_of(out@) =~= jsons_of(items@));
    out
}

/// A copy of an optional string.
pub fn clone_text(s: &Option<String>) -> (r: Option<String>)
    ensures
        opt_text(r) == opt_text(*s),
{
    match s {
        Some(t) => Some(t.clone()),
        None => None,
    }
}

impl Clone for ChatMessage {
    fn clone(&self) -> (r: ChatMessage)
        ensures
            r@ == self@,
    {
        ChatMessage {
            role: self.role.clone(),
            content: match &self.content {
                Some(v) => Some(v.clone()),
                None => None,
            },
            reasoning_content: clone_text(&self.reasoning_content),
            tool_calls: match &self.tool_calls {
                Some(items) => Some(clone_values(items)),
                None => None,
            },
            tool_call_id: clone_text(&self.tool_call_id),
            name: clone_text(&self.name),
        }
    }
}

impl ChatMessage {
    /// A message that has a role and a content, and nothing else.
    pub fn plain(role: &str, content: Option<JsonValue>) -> (r: ChatMessage)
        ensures
            r@ == Message::plain(role@, opt_json(content)),
    {
        ChatMessage {
            role: role.to_owned(),
            content,
            reasoning_content: None,
            tool_calls: None,
            tool_call_id: None,
            name: None,
        }
    }

    /// The text of a message: its content where that is a string, else nothing.
    pub fn text_content(&self) -> (r: &str)
        ensures
            r@ == self@.text(),
    {
        match &self.content {
            Some(JsonValue::String(s)) => s.as_str(),
            _ => {
                proof {
                    reveal_strlit("");
                    assert(""@ =~= Seq::empty());
                }
                ""
            },
        }
    }
}

/// Asks a streaming upstream for its usage numbers.
#[derive(Debug, Clone, Copy)]
pub struct ChatStreamOptions {
    pub include_usage: bool,
}

/// The thinking mode asked of the upstream.
#[derive(Debug)]
pub struct ChatThinking {
    pub kind: String,
}

/// A request of the Chat Completions API.
#[derive(Debug)]
pub struct ChatRequest {
    pub model: String,
    pub messages: Vec<ChatMessage>,
    pub tools: Vec<JsonValue>,
    pub temperature: Option<serde_json::Number>,
    pub max_tokens: Option<u64>,
    pub stream_options: Option<ChatStreamOptions>,
    pub thinking: Option<ChatThinking>,
    pub reasoning_effort: Option<String>,
    pub stream: bool,
}

/// One of the answers of a Chat Completions response.
#[derive(Debug)]
pub struct ChatChoice {
    pub message: ChatMessage,
}

/// The token counts of a Chat Completions response.
#[derive(Debug, Clone, Copy)]
pub struct ChatUsage {
    pub prompt_tokens: u64,
    pub completion_tokens: u64,
    pub total_tokens: u64,
    pub cache_hit_tokens: u64,
}

impl Default for ChatUsage {
    fn default() -> (r: ChatUsage)
        ensures
            r == (ChatUsage {
                prompt_tokens: 0,
                completion_tokens: 0,
                total_tokens: 0,
                cache_hit_tokens: 0,
            }),
    {
        ChatUsage {
            prompt_tokens: 0,
            completion_tokens: 0,
            total_tokens: 0,
            cache_hit_tokens: 0,
        }
    }
}

impl ChatUsage {
    /// How many of the prompt tokens the upstream took from its cache.
    pub fn cache_hit(&self) -> (r: u64)
        ensures
            r == self.cache_hit_tokens,
    {
        self.cache_hit_tokens
    }
}

/// A response of the Chat Completions API.
#[derive(Debug)]
pub struct ChatResponse {
    pub choices: Vec<ChatChoice>,
    pub usage: Option<ChatUsage>,
}

/// The part of the input tokens that came from a cache.
#[derive(Debug, Clone, Copy)]
pub struct InputTokensDetails {
    pub cached_tokens: u64,
}

/// The token counts of a Responses response.
#[derive(Debug, Clone, Copy)]
pub struct ResponsesUsage {
    pub input_tokens: u64,
    pub output_tokens: u64,
    pub total_tokens: u64,
    pub input_tokens_details: Option<InputTokensDetails>,
}

/// A response of the Responses API.
#[derive(Debug)]
pub struct ResponsesResponse {
    pub id: String,
    pub object: &'static str,
    pub model: String,
    pub output: Vec<JsonValue>,
    pub usage: ResponsesUsage,
}

} // verus!
