//! The reasoning that earlier turns left behind.
use vstd::hash_map::StringHashMap;
use vstd::prelude::*;

use crate::json::{Json, JsonMap, JsonValue, json_text, jsons_of};
use crate::types::{ChatMessage, Message, clone_values, messages_of, opt_text};

verus! {

/// A text, or `null` where there is none.
pub open spec fn text_or_null(s: Option<Seq<char>>) -> Json {
    match s {
        Some(t) => Json::String(t),
        None => Json::Null,
    }
}

/// What identifies a message within a turn: everything but its reasoning.
pub open spec fn turn_member(m: Message) -> Json {
    Json::Object(
        Map::<Seq<char>, Json>::empty().insert("role"@, Json::String(m.role)).insert(
            "content"@,
            match m.content {
                Some(v) => v,
                None => Json::Null,
            },
        ).insert(
            "tool_calls"@,
            match m.tool_calls {
                Some(calls) => Json::Array(calls),
                None => Json::Null,
            },
        ).insert("tool_call_id"@, text_or_null(m.tool_call_id)).insert(
            "name"@,
            text_or_null(m.name),
        ),
    )
}

/// What identifies a turn: the messages before it and the assistant message.
pub open spec fn turn_members(prior: Seq<Message>, assistant: Message) -> Seq<Json> {
    prior.push(assistant).map_values(|m: Message| turn_member(m))
}

/// The key under which the reasoning of a turn is kept.
pub open spec fn turn_key(prior: Seq<Message>, assistant: Message) -> Seq<char> {
    json_text(Json::Array(turn_members(prior, assistant)))
}

fn text_or_null_value(s: &Option<String>) -> (r: JsonValue)
    ensures
        r@ == text_or_null(opt_text(*s)),
{
    match s {
        Some(t) => JsonValue::String(t.clone()),
        None => JsonValue::Null,
    }
}

fn turn_member_value(m: &ChatMessage) -> (r: JsonValue)
    ensures
        r@ == turn_member(m@),
{
    let mut out = JsonMap::new();
    out.insert("role".to_owned(), JsonValue::String(m.role.clone()));
    out.insert(
        "content".to_owned(),
        match &m.content {
            Some(v) => v.clone(),
            None => JsonValue::Null,
        },
    );
    out.insert(
        "tool_calls".to_owned(),
        match &m.tool_calls {
            Some(calls) => JsonValue::Array(clone_values(calls)),
            None => JsonValue::Null,
        },
    );
    out.insert("tool_call_id".to_owned(), text_or_null_value(&m.tool_call_id));
    out.insert("name".to_owned(), text_or_null_value(&m.name));
    JsonValue::Object(out)
}

fn turn_key_text(prior: &Vec<ChatMessage>, assistant: &ChatMessage) -> (r: String)
    ensures
        r@ == turn_key(messages_of(prior@), assistant@),
{
    let mut members: Vec<JsonValue> = Vec::new();
    let mut i: usize = 0;
    while i < prior.len()
        invariant
            i <= prior@.len(),
            members@.len() == i,
            forall|j: int| 0 <= j < i ==> (#[trigger] members@[j])@ == turn_member(prior@[j]@),
        decreases prior.len() - i,
    {
        members.push(turn_member_value(&prior[i]));
        i = i + 1;
    }
    members.push(turn_member_value(assistant));
    assert(jsons_of(members@) =~= turn_members(messages_of(prior@), assistant@));
    JsonValue::Array(members).to_text()
}

/// The reasoning of earlier turns, by call ID and by turn.
pub struct SessionStore {
    reasoning: StringHashMap<String>,
    turns: StringHashMap<String>,
}

impl SessionStore {
    /// The reasoning kept for call IDs.
    pub closed spec fn by_call(self) -> Map<Seq<char>, Seq<char>> {
        self.reasoning@.map_values(|s: String| s@)
    }

    /// The reasoning kept for turns, by their keys.
    pub closed spec fn by_turn(self) -> Map<Seq<char>, Seq<char>> {
        self.turns@.map_values(|s: String| s@)
    }

    /// The reasoning of a call.
    pub open spec fn call_reasoning(self, call_id: Seq<char>) -> Option<Seq<char>> {
        if self.by_call().contains_key(call_id) {
            Some(self.by_call()[call_id])
        } else {
            None
        }
    }

    /// The reasoning of a turn.
    pub open spec fn turn_reasoning(self, prior: Seq<Message>, assistant: Message) -> Option<
        Seq<char>,
    > {
        self.reasoning_at(turn_key(prior, assistant))
    }

    /// The reasoning kept for a turn under a key.
    pub open spec fn reasoning_at(self, key: Seq<char>) -> Option<Seq<char>> {
        if self.by_turn().contains_key(key) {
            Some(self.by_turn()[key])
        } else {
            None
        }
    }

    /// A store that holds nothing.
    pub fn new() -> (r: SessionStore)
        ensures
            r.by_call() == Map::<Seq<char>, Seq<char>>::empty(),
            r.by_turn() == Map::<Seq<char>, Seq<char>>::empty(),
    {
        let r = SessionStore { reasoning: StringHashMap::new(), turns: StringHashMap::new() };
        assert(r.by_call() =~= Map::empty());
        assert(r.by_turn() =~= Map::empty());
        r
    }

    /// Keeps the reasoning of a call.
    pub fn store_reasoning(&mut self, call_id: String, reasoning: String)
        ensures
            final(self).by_call() == old(self).by_call().insert(call_id@, reasoning@),
            final(self).by_turn() == old(self).by_turn(),
            final(self).call_reasoning(call_id@) == Some(reasoning@),
    {
        let ghost key = call_id@;
        let ghost value = reasoning@;
        self.reasoning.insert(call_id, reasoning);
        assert(self.by_call() =~= old(self).by_call().insert(key, value));
    }

    /// Keeps the reasoning of a turn.
    pub fn store_turn_reasoning(
        &mut self,
        prior: &Vec<ChatMessage>,
        assistant: &ChatMessage,
        reasoning: String,
    )
        ensures
            final(self).by_call() == old(self).by_call(),
            final(self).by_turn() == old(self).by_turn().insert(
                turn_key(messages_of(prior@), assistant@),
                reasoning@,
            ),
            final(self).turn_reasoning(messages_of(prior@), assistant@) == Some(reasoning@),
    {
        let key = turn_key_text(prior, assistant);
        let ghost k = key@;
        let ghost value = reasoning@;
        self.turns.insert(key, reasoning);
        assert(self.by_turn() =~= old(self).by_turn().insert(k, value));
    }

    /// The reasoning of a call.
    pub fn get_reasoning(&self, call_id: &str) -> (r: Option<String>)
        ensures
            opt_text(r) == self.call_reasoning(call_id@),
    {
        match self.reasoning.get(call_id) {
            Some(s) => Some(s.clone()),
            None => None,
        }
    }

    /// The reasoning of a turn: of an assistant message after other messages.
    pub fn get_turn_reasoning(&self, prior: &Vec<ChatMessage>, assistant: &ChatMessage) -> (r:
        Option<String>)
        ensures
            opt_text(r) == self.turn_reasoning(messages_of(prior@), assistant@),
    {
        if self.turns.is_empty() {
            return None;
        }
        let key = turn_key_text(prior, assistant);
        self.get_reasoning_at(key.as_str())
    }

    /// The reasoning kept for a turn under a key.
    pub fn get_reasoning_at(&self, key: &str) -> (r: Option<String>)
        ensures
            opt_text(r) == self.reasoning_at(key@),
    {
        match self.turns.get(key) {
            Some(s) => Some(s.clone()),
            None => None,
        }
    }
}

} // verus!
