//! The content of messages: its Chat Completions form, and whether there is any.
use vstd::prelude::*;

use crate::json::{Json, JsonMap, JsonValue, json_text, jsons_of};
use crate::text::{blank_text, is_blank, same_text};
use crate::types::{ChatMessage, Message, messages_of, opt_json, opt_value};

verus! {

/// Whether a content part of this kind is text.
pub open spec fn text_kind(kind: Seq<char>) -> bool {
    kind == "text"@ || kind == "input_text"@ || kind == "output_text"@
}

/// Whether a content part is text.
pub open spec fn is_text_part(part: Json) -> bool {
    text_kind(part.str_or("type"@, ""@))
}

fn text_part(part: &JsonValue) -> (r: bool)
    ensures
        r == is_text_part(part@),
{
    let kind = part.str_or("type", "");
    same_text(kind, "text") || same_text(kind, "input_text") || same_text(kind, "output_text")
}

/// Whether a content part is text that holds nothing but white space.
pub open spec fn is_blank_part(part: Json) -> bool {
    is_text_part(part) && match part.str_at("text"@) {
        Some(text) => blank_text(text),
        None => true,
    }
}

/// Whether content parts are all blank text.
pub open spec fn only_blank_parts(parts: Seq<Json>) -> bool {
    forall|i: int| 0 <= i < parts.len() ==> is_blank_part(#[trigger] parts[i])
}

/// Whether content parts are all text.
pub open spec fn only_text_parts(parts: Seq<Json>) -> bool {
    forall|i: int| 0 <= i < parts.len() ==> is_text_part(#[trigger] parts[i])
}

/// Whether a content carries nothing: no content, `null`, blank text, or parts
/// that are all blank text. Images and unknown parts carry something.
pub open spec fn contentless(content: Option<Json>) -> bool {
    match content {
        None => true,
        Some(Json::Null) => true,
        Some(Json::String(text)) => blank_text(text),
        Some(Json::Array(parts)) => only_blank_parts(parts),
        Some(_) => false,
    }
}

fn blank_parts(parts: &Vec<JsonValue>) -> (r: bool)
    ensures
        r == only_blank_parts(jsons_of(parts@)),
{
    let mut i: usize = 0;
    while i < parts.len()
        invariant
            i <= parts@.len(),
            forall|j: int| 0 <= j < i ==> is_blank_part(#[trigger] jsons_of(parts@)[j]),
        decreases parts.len() - i,
    {
        let part = &parts[i];
        let blank = text_part(part) && match part.get_str("text") {
            Some(text) => is_blank(text),
            None => true,
        };
        if !blank {
            assert(!is_blank_part(jsons_of(parts@)[i as int]));
            return false;
        }
        i = i + 1;
    }
    true
}

/// Whether a content carries nothing.
pub fn is_content_value_contentless(content: Option<&JsonValue>) -> (r: bool)
    ensures
        r == contentless(opt_value(content)),
{
    match content {
        None => true,
        Some(JsonValue::Null) => true,
        Some(JsonValue::String(text)) => is_blank(text.as_str()),
        Some(JsonValue::Array(parts)) => blank_parts(parts),
        Some(_) => false,
    }
}

/// Whether a message would reach the upstream with no content.
pub fn is_contentless(msg: &ChatMessage) -> (r: bool)
    ensures
        r == contentless(msg@.content),
{
    match &msg.content {
        Some(v) => is_content_value_contentless(Some(v)),
        None => is_content_value_contentless(None),
    }
}

/// Whether a message can be left out: a user or system message without
/// content. An assistant message may still carry tool calls, and a tool
/// message is pinned to its call.
pub open spec fn droppable(msg: Message) -> bool {
    &&& msg.role == "user"@ || msg.role == "system"@
    &&& msg.tool_calls is None
    &&& msg.tool_call_id is None
    &&& contentless(msg.content)
}

/// Whether a message can be left out.
pub fn is_droppable_contentless(msg: &ChatMessage) -> (r: bool)
    ensures
        r == droppable(msg@),
{
    (same_text(msg.role.as_str(), "user") || same_text(msg.role.as_str(), "system"))
        && msg.tool_calls.is_none() && msg.tool_call_id.is_none() && is_contentless(msg)
}

/// Whether an input item is a user, system or developer message without content.
pub open spec fn contentless_item(item: Json) -> bool {
    let role = item.str_or("role"@, "user"@);
    &&& item.has_str("type"@, "message"@) || item.has_str("type"@, "agent_message"@)
    &&& role == "user"@ || role == "system"@ || role == "developer"@
    &&& contentless(item.get("content"@))
}

/// Whether an input item is a user, system or developer message without content.
pub fn is_contentless_response_message(item: &JsonValue) -> (r: bool)
    ensures
        r == contentless_item(item@),
{
    if !item.has_str("type", "message") && !item.has_str("type", "agent_message") {
        return false;
    }
    let role = item.str_or("role", "user");
    (same_text(role, "user") || same_text(role, "system") || same_text(role, "developer"))
        && is_content_value_contentless(item.get("content"))
}

/// The texts of some content parts, one after the other.
pub open spec fn joined_texts(parts: Seq<Json>) -> Seq<char>
    decreases parts.len(),
{
    if parts.len() == 0 {
        Seq::empty()
    } else {
        joined_texts(parts.drop_last()) + parts.last().str_or("text"@, Seq::empty())
    }
}

/// An image part around the description of an image.
pub open spec fn image_part(image: Json) -> Json {
    Json::Object(
        Map::<Seq<char>, Json>::empty().insert("type"@, Json::String("image_url"@)).insert(
            "image_url"@,
            image,
        ),
    )
}

/// The description of an image by its URL.
pub open spec fn image_at(url: Seq<char>) -> Json {
    Json::Object(Map::<Seq<char>, Json>::empty().insert("url"@, Json::String(url)))
}

/// The Chat Completions form of a content part: text and image parts get
/// their shape, every other part stays as it is.
pub open spec fn chat_part(part: Json) -> Json {
    let kind = part.str_or("type"@, ""@);
    if text_kind(kind) {
        Json::Object(
            Map::<Seq<char>, Json>::empty().insert("type"@, Json::String("text"@)).insert(
                "text"@,
                Json::String(part.str_or("text"@, ""@)),
            ),
        )
    } else if kind == "input_image"@ {
        image_part(image_at(part.str_or("image_url"@, ""@)))
    } else if kind == "image_url"@ {
        match part.get("image_url"@) {
            Some(Json::Object(m)) => image_part(Json::Object(m)),
            Some(Json::String(url)) => image_part(image_at(url)),
            _ => image_part(image_at(""@)),
        }
    } else {
        part
    }
}

fn image_part_value(image: JsonValue) -> (r: JsonValue)
    ensures
        r@ == image_part(image@),
{
    let mut m = JsonMap::new();
    m.insert("type".to_owned(), JsonValue::text("image_url"));
    m.insert("image_url".to_owned(), image);
    JsonValue::Object(m)
}

fn image_at_value(url: &str) -> (r: JsonValue)
    ensures
        r@ == image_at(url@),
{
    let mut m = JsonMap::new();
    m.insert("url".to_owned(), JsonValue::text(url));
    JsonValue::Object(m)
}

/// Reshapes a single Responses API content part into a Chat Completions one.
pub fn map_content_part(part: &JsonValue) -> (r: JsonValue)
    ensures
        r@ == chat_part(part@),
{
    let kind = part.str_or("type", "");
    if text_part(part) {
        let mut m = JsonMap::new();
        m.insert("type".to_owned(), JsonValue::text("text"));
        m.insert("text".to_owned(), JsonValue::text(part.str_or("text", "")));
        JsonValue::Object(m)
    } else if same_text(kind, "input_image") {
        image_part_value(image_at_value(part.str_or("image_url", "")))
    } else if same_text(kind, "image_url") {
        match part.get("image_url") {
            Some(JsonValue::Object(m)) => image_part_value(JsonValue::Object(m.clone())),
            Some(JsonValue::String(url)) => image_part_value(image_at_value(url.as_str())),
            _ => image_part_value(image_at_value("")),
        }
    } else {
        part.clone()
    }
}

/// The Chat Completions form of a content.
pub open spec fn chat_content(content: Option<Json>) -> Option<Json> {
    match content {
        None => None,
        Some(Json::Null) => None,
        Some(Json::String(text)) => Some(Json::String(text)),
        Some(Json::Array(parts)) => if only_text_parts(parts) {
            Some(Json::String(joined_texts(parts)))
        } else {
            Some(Json::Array(parts.map_values(|part: Json| chat_part(part))))
        },
        Some(other) => Some(Json::String(json_text(other))),
    }
}

fn all_text_parts(parts: &Vec<JsonValue>) -> (r: bool)
    ensures
        r == only_text_parts(jsons_of(parts@)),
{
    let mut i: usize = 0;
    while i < parts.len()
        invariant
            i <= parts@.len(),
            forall|j: int| 0 <= j < i ==> is_text_part(#[trigger] jsons_of(parts@)[j]),
        decreases parts.len() - i,
    {
        if !text_part(&parts[i]) {
            assert(!is_text_part(jsons_of(parts@)[i as int]));
            return false;
        }
        i = i + 1;
    }
    true
}

fn join_texts(parts: &Vec<JsonValue>) -> (r: String)
    ensures
        r@ == joined_texts(jsons_of(parts@)),
{
    let ghost all = jsons_of(parts@);
    let mut out = String::new();
    let mut i: usize = 0;
    assert(all.take(0) =~= Seq::empty());
    while i < parts.len()
        invariant
            i <= parts@.len(),
            all == jsons_of(parts@),
            out@ == joined_texts(all.take(i as int)),
        decreases parts.len() - i,
    {
        assert(all.take(i + 1).drop_last() =~= all.take(i as int));
        match parts[i].get_str("text") {
            Some(text) => out.append(text),
            None => {
                assert(out@ + Seq::<char>::empty() =~= out@);
            },
        }
        i = i + 1;
    }
    assert(all.take(i as int) =~= all);
    out
}

/// Translates a Responses API `content` value to its Chat Completions form.
///
/// Text stays text, and an array of nothing but text parts collapses to one
/// text. An array with any other part stays an array, part by part. Any other
/// value is written out as JSON. Content that carries nothing stays so, and
/// content that carries something does too.
pub fn value_to_chat_content(v: Option<&JsonValue>) -> (r: Option<JsonValue>)
    ensures
        opt_json(r) == chat_content(opt_value(v)),
        contentless(opt_json(r)) == contentless(opt_value(v)),
{
    proof {
        lemma_blankness_stays(opt_value(v));
    }
    match v {
        None => None,
        Some(JsonValue::Null) => None,
        Some(JsonValue::String(s)) => Some(JsonValue::String(s.clone())),
        Some(JsonValue::Array(parts)) => {
            if all_text_parts(parts) {
                Some(JsonValue::String(join_texts(parts)))
            } else {
                let mut mapped: Vec<JsonValue> = Vec::new();
                let mut i: usize = 0;
                while i < parts.len()
                    invariant
                        i <= parts@.len(),
                        mapped@.len() == i,
                        forall|j: int|
                            0 <= j < i ==> (#[trigger] mapped@[j])@ == chat_part(parts@[j]@),
                    decreases parts.len() - i,
                {
                    mapped.push(map_content_part(&parts[i]));
                    i = i + 1;
                }
                assert(jsons_of(mapped@) =~= jsons_of(parts@).map_values(
                    |part: Json| chat_part(part),
                ));
                Some(JsonValue::Array(mapped))
            }
        },
        Some(other) => Some(JsonValue::String(other.to_text())),
    }
}

/// The Chat Completions role for a Responses API role.
pub open spec fn chat_role(role: Seq<char>) -> Seq<char> {
    if role == "developer"@ {
        "system"@
    } else {
        role
    }
}

/// The Chat Completions message for a message item.
pub open spec fn chat_message(item: Json) -> Message {
    Message::plain(chat_role(item.str_or("role"@, "user"@)), chat_content(item.get("content"@)))
}

/// The Chat Completions message for a message item.
pub fn response_message_to_chat(item: &JsonValue) -> (r: ChatMessage)
    ensures
        r@ == chat_message(item@),
        contentless(r@.content) == contentless(item@.get("content"@)),
{
    let role = item.str_or("role", "user");
    let content = value_to_chat_content(item.get("content"));
    if same_text(role, "developer") {
        ChatMessage::plain("system", content)
    } else {
        ChatMessage::plain(role, content)
    }
}

/// The messages that are not droppable, in their order.
pub open spec fn with_content(messages: Seq<Message>) -> Seq<Message> {
    messages.filter(|m: Message| !droppable(m))
}

/// Drops the droppable messages of a list.
pub fn retain_with_content(messages: Vec<ChatMessage>) -> (r: Vec<ChatMessage>)
    ensures
        messages_of(r@) == with_content(messages_of(messages@)),
{
    let ghost all = messages_of(messages@);
    let ghost keep = |m: Message| !droppable(m);
    let mut out: Vec<ChatMessage> = Vec::new();
    assert(all.take(0).filter(keep) =~= Seq::empty()) by {
        reveal(Seq::filter);
    }
    assert(messages_of(out@) =~= Seq::empty());
    for msg in it: messages
        invariant
            all == messages_of(it.seq()),
            keep == (|m: Message| !droppable(m)),
            messages_of(out@) == all.take(it.index() as int).filter(keep),
    {
        let ghost i = it.index() as int;
        let ghost before = out@;
        proof {
            reveal(Seq::filter);
            assert(all.take(i + 1).drop_last() =~= all.take(i));
            assert(all.take(i + 1).last() == msg@);
        }
        if !is_droppable_contentless(&msg) {
            out.push(msg);
            assert(messages_of(out@) =~= messages_of(before).push(msg@));
        }
    }
    assert(all.take(all.len() as int) =~= all);
    out
}

/// Whether every message of a list is droppable.
pub open spec fn all_droppable(messages: Seq<Message>) -> bool {
    forall|i: int| 0 <= i < messages.len() ==> droppable(#[trigger] messages[i])
}

/// What is left of a list of messages: those that are not droppable, or, where
/// there is none, the newest.
pub open spec fn without_contentless(messages: Seq<Message>) -> Seq<Message> {
    if messages.len() == 0 {
        messages
    } else if all_droppable(messages) {
        seq![messages.last()]
    } else {
        with_content(messages)
    }
}

/// Drops user and system messages that carry no content at all.
///
/// Several upstreams reject the whole request when any message is empty, so
/// one blank message in a replayed history would block a thread for good. The
/// last remaining message is never dropped: an empty list is refused as well.
pub fn drop_contentless_messages(messages: &mut Vec<ChatMessage>)
    ensures
        messages_of(final(messages)@) == without_contentless(messages_of(old(messages)@)),
{
    let ghost all = messages_of(messages@);
    let mut i: usize = 0;
    let mut only_blank = true;
    while i < messages.len()
        invariant
            i <= messages@.len(),
            all == messages_of(messages@),
            only_blank == (forall|j: int| 0 <= j < i ==> droppable(#[trigger] all[j])),
        decreases messages.len() - i,
    {
        if !is_droppable_contentless(&messages[i]) {
            assert(!droppable(all[i as int]));
            only_blank = false;
        }
        i = i + 1;
    }
    if only_blank {
        if let Some(newest) = messages.pop() {
            messages.clear();
            messages.push(newest);
            assert(messages_of(messages@) =~= seq![all.last()]);
        }
    } else {
        let mut taken: Vec<ChatMessage> = Vec::new();
        std::mem::swap(&mut taken, messages);
        *messages = retain_with_content(taken);
    }
}

proof fn lemma_with_content(messages: Seq<Message>)
    ensures
        forall|i: int|
            0 <= i < with_content(messages).len() ==> !droppable(
                #[trigger] with_content(messages)[i],
            ),
        !all_droppable(messages) ==> with_content(messages).len() > 0,
{
    let keep = |m: Message| !droppable(m);
    broadcast use vstd::seq_lib::group_filter_ensures;

    assert forall|i: int| 0 <= i < with_content(messages).len() implies !droppable(
        #[trigger] with_content(messages)[i],
    ) by {
        assert(keep(messages.filter(keep)[i]));
    }
    if !all_droppable(messages) {
        let i = choose|i: int| 0 <= i < messages.len() && !droppable(#[trigger] messages[i]);
        assert(keep(messages[i]));
        assert(messages.filter(keep).contains(messages[i]));
    }
}

/// Dropping never empties a list, and leaves no droppable message in it unless
/// that is the only one.
pub proof fn dropping_leaves_content(messages: Seq<Message>)
    ensures
        messages.len() > 0 ==> without_contentless(messages).len() > 0,
        without_contentless(messages).len() > 1 ==> forall|i: int|
            0 <= i < without_contentless(messages).len() ==> !droppable(
                #[trigger] without_contentless(messages)[i],
            ),
{
    lemma_with_content(messages);
}

/// Dropping a second time changes nothing.
pub proof fn dropping_again_changes_nothing(messages: Seq<Message>)
    ensures
        without_contentless(without_contentless(messages)) == without_contentless(messages),
{
    lemma_with_content(messages);
    if messages.len() > 0 {
        if all_droppable(messages) {
            let kept = seq![messages.last()];
            assert(droppable(messages[messages.len() - 1]));
            assert(without_contentless(kept) =~= kept);
        } else {
            let kept = with_content(messages);
            assert(!droppable(kept[0]));
            lemma_with_content_keeps_all(kept);
        }
    }
}

proof fn lemma_with_content_keeps_all(messages: Seq<Message>)
    requires
        forall|i: int| 0 <= i < messages.len() ==> !droppable(#[trigger] messages[i]),
    ensures
        with_content(messages) == messages,
    decreases messages.len(),
{
    reveal(Seq::filter);
    if messages.len() > 0 {
        let rest = messages.drop_last();
        assert forall|i: int| 0 <= i < rest.len() implies !droppable(#[trigger] rest[i]) by {
            assert(rest[i] == messages[i]);
        }
        lemma_with_content_keeps_all(rest);
        assert(!droppable(messages[messages.len() - 1]));
        assert(rest.push(messages.last()) =~= messages);
    }
}

/// A message that is not droppable is never dropped: assistant and tool
/// messages, and messages with content, all stay.
pub proof fn dropping_keeps_content(messages: Seq<Message>, i: int)
    requires
        0 <= i < messages.len(),
        !droppable(messages[i]),
    ensures
        without_contentless(messages).contains(messages[i]),
{
    let keep = |m: Message| !droppable(m);
    broadcast use vstd::seq_lib::group_filter_ensures;

    assert(keep(messages[i]));
}

pub(crate) proof fn lemma_blankness_stays(content: Option<Json>)
    ensures
        match content {
            Some(Json::Bool(_)) | Some(Json::Number(_)) | Some(Json::Object(_)) => true,
            _ => contentless(chat_content(content)) == contentless(content),
        },
{
    if let Some(Json::Array(parts)) = content {
        if only_text_parts(parts) {
            lemma_joined_texts_blank(parts);
        } else {
            let i = choose|i: int| 0 <= i < parts.len() && !is_text_part(#[trigger] parts[i]);
            let mapped = parts.map_values(|part: Json| chat_part(part));
            assert(!is_blank_part(parts[i]));
            lemma_other_part_stays_other(parts[i]);
            assert(!is_blank_part(mapped[i]));
        }
    }
}

proof fn lemma_other_part_stays_other(part: Json)
    requires
        !is_text_part(part),
    ensures
        !is_text_part(chat_part(part)),
{
    reveal_strlit("type");
    reveal_strlit("image_url");
    reveal_strlit("text");
    reveal_strlit("input_text");
    reveal_strlit("output_text");
    assert("type"@ != "image_url"@) by {
        assert("type"@.len() != "image_url"@.len());
    }
    assert("image_url"@.len() == 9 && "text"@.len() == 4 && "input_text"@.len() == 10
        && "output_text"@.len() == 11);
}

proof fn lemma_joined_texts_blank(parts: Seq<Json>)
    requires
        only_text_parts(parts),
    ensures
        blank_text(joined_texts(parts)) == only_blank_parts(parts),
    decreases parts.len(),
{
    if parts.len() > 0 {
        let rest = parts.drop_last();
        assert forall|i: int| 0 <= i < rest.len() implies is_text_part(#[trigger] rest[i]) by {
            assert(rest[i] == parts[i]);
        }
        lemma_joined_texts_blank(rest);
        let last = parts.last();
        let a = joined_texts(rest);
        let b = last.str_or("text"@, Seq::empty());
        assert(is_text_part(parts[parts.len() - 1]));
        assert(blank_text(b) == is_blank_part(last));
        assert(blank_text(a + b) == (blank_text(a) && blank_text(b))) by {
            if blank_text(a + b) {
                assert forall|i: int| 0 <= i < a.len() implies crate::text::is_white_space(
                    #[trigger] a[i],
                ) by {
                    assert((a + b)[i] == a[i]);
                }
                assert forall|i: int| 0 <= i < b.len() implies crate::text::is_white_space(
                    #[trigger] b[i],
                ) by {
                    assert((a + b)[a.len() + i] == b[i]);
                }
            }
        }
        if only_blank_parts(parts) {
            assert forall|i: int| 0 <= i < rest.len() implies is_blank_part(#[trigger] rest[i]) by {
                assert(rest[i] == parts[i]);
            }
            assert(is_blank_part(parts[parts.len() - 1]));
        }
        if blank_text(joined_texts(parts)) {
            assert forall|i: int| 0 <= i < parts.len() implies is_blank_part(
                #[trigger] parts[i],
            ) by {
                if i < rest.len() {
                    assert(rest[i] == parts[i]);
                }
            }
        }
    }
}

} // verus!
