//! What becomes of the content of messages, part by part, and which messages
//! are left out for want of it.
use vstd::prelude::*;

use crate::call_laws::only_white_space;
use crate::content::{
    chat_content, chat_message, chat_part, contentless, contentless_item, droppable,
    is_blank_part, is_text_part, joined_texts, only_blank_parts, only_text_parts, with_content,
    without_contentless,
};
use crate::json::{Json, json_text};
use crate::literals::lemma_literals;
use crate::types::Message;

verus! {

/// Whether a content part is of one of the three kinds of text.
pub open spec fn holds_text(part: Json) -> bool {
    part.str_at("type"@) == Some("text"@) || part.str_at("type"@) == Some("input_text"@)
        || part.str_at("type"@) == Some("output_text"@)
}

proof fn lemma_holds_text(part: Json)
    ensures
        holds_text(part) <==> is_text_part(part),
{
    lemma_literals();
    reveal_strlit("");
}

/// The texts of a list of parts are joined in their order, with nothing
/// between them; a part without text adds nothing.
pub proof fn texts_are_joined_in_order(parts: Seq<Json>, part: Json)
    ensures
        joined_texts(Seq::<Json>::empty()).len() == 0,
        part.str_at("text"@) matches Some(text) ==> joined_texts(parts.push(part)) == joined_texts(
            parts,
        ) + text,
        part.str_at("text"@) is None ==> joined_texts(parts.push(part)) == joined_texts(parts),
{
    assert(parts.push(part).drop_last() =~= parts);
    assert(joined_texts(parts) + Seq::<char>::empty() =~= joined_texts(parts));
}

/// Content of nothing but text parts becomes one text, their texts joined.
pub proof fn text_parts_become_one_text(parts: Seq<Json>)
    requires
        forall|i: int| 0 <= i < parts.len() ==> holds_text(#[trigger] parts[i]),
    ensures
        chat_content(Some(Json::Array(parts))) == Some(Json::String(joined_texts(parts))),
{
    assert forall|i: int| 0 <= i < parts.len() implies is_text_part(#[trigger] parts[i]) by {
        lemma_holds_text(parts[i]);
    }
}

/// Content with a part that is no text stays an array, part by part.
pub proof fn other_parts_stay_apart(parts: Seq<Json>, at: int)
    requires
        0 <= at < parts.len(),
        !holds_text(parts[at]),
    ensures
        chat_content(Some(Json::Array(parts))) matches Some(Json::Array(r)) && r.len()
            == parts.len() && forall|i: int|
            0 <= i < parts.len() ==> r[i] == chat_part(#[trigger] parts[i]),
{
    lemma_holds_text(parts[at]);
    assert(!only_text_parts(parts));
}

/// Whether a part is an image part around the URL of an image.
pub open spec fn shows(part: Json, url: Seq<char>) -> bool {
    &&& part.get("type"@) == Some(Json::String("image_url"@))
    &&& forall|k: Seq<char>| #[trigger] part.get(k) is Some <==> k == "type"@ || k == "image_url"@
    &&& part.get("image_url"@)->0.get("url"@) == Some(Json::String(url))
    &&& forall|k: Seq<char>| #[trigger] part.get("image_url"@)->0.get(k) is Some <==> k == "url"@
}

/// A text part keeps its text, an image part its URL or the description that
/// it has of the image, and any other part stays as it is.
pub proof fn parts_keep_what_they_hold(part: Json)
    ensures
        holds_text(part) ==> {
            let r = chat_part(part);
            &&& r.get("type"@) == Some(Json::String("text"@))
            &&& r.get("text"@) == Some(
                Json::String(
                    match part.str_at("text"@) {
                        Some(text) => text,
                        None => ""@,
                    },
                ),
            )
            &&& forall|k: Seq<char>| #[trigger] r.get(k) is Some <==> k == "type"@ || k == "text"@
        },
        part.str_at("type"@) == Some("input_image"@) ==> shows(
            chat_part(part),
            match part.str_at("image_url"@) {
                Some(url) => url,
                None => ""@,
            },
        ),
        part.str_at("type"@) == Some("image_url"@) ==> match part.get("image_url"@) {
            Some(Json::Object(m)) => {
                let r = chat_part(part);
                &&& r.get("type"@) == Some(Json::String("image_url"@))
                &&& r.get("image_url"@) == Some(Json::Object(m))
                &&& forall|k: Seq<char>| #[trigger]
                    r.get(k) is Some <==> k == "type"@ || k == "image_url"@
            },
            Some(Json::String(url)) => shows(chat_part(part), url),
            _ => shows(chat_part(part), ""@),
        },
        !holds_text(part) && part.str_at("type"@) != Some("input_image"@) && part.str_at("type"@)
            != Some("image_url"@) ==> chat_part(part) == part,
{
    lemma_literals();
    reveal_strlit("");
    lemma_holds_text(part);
}

/// A text stays a text, no content and `null` are no content, and any other
/// value is written out.
pub proof fn plain_content_stays_text(text: Seq<char>, value: Json)
    ensures
        chat_content(Some(Json::String(text))) == Some(Json::String(text)),
        chat_content(None) is None,
        chat_content(Some(Json::Null)) is None,
        value is Bool || value is Number || value is Object ==> chat_content(Some(value)) == Some(
            Json::String(json_text(value)),
        ),
{
}

/// Content carries nothing exactly when there is none, or it is `null`, white
/// space, or text parts that hold nothing but white space.
pub proof fn content_that_carries_nothing(text: Seq<char>, parts: Seq<Json>, value: Json)
    ensures
        contentless(None),
        contentless(Some(Json::Null)),
        contentless(Some(Json::String(text))) <==> only_white_space(text),
        contentless(Some(Json::Array(parts))) <==> forall|i: int|
            0 <= i < parts.len() ==> holds_text(#[trigger] parts[i]) && (parts[i].str_at("text"@)
                is None || only_white_space(parts[i].str_at("text"@)->0)),
        value is Bool || value is Number || value is Object ==> !contentless(Some(value)),
{
    if contentless(Some(Json::Array(parts))) {
        assert forall|i: int| 0 <= i < parts.len() implies holds_text(#[trigger] parts[i]) && (
        parts[i].str_at("text"@) is None || only_white_space(parts[i].str_at("text"@)->0)) by {
            assert(is_blank_part(parts[i]));
            lemma_holds_text(parts[i]);
        }
    }
    if forall|i: int|
        0 <= i < parts.len() ==> holds_text(#[trigger] parts[i]) && (parts[i].str_at("text"@) is None
            || only_white_space(parts[i].str_at("text"@)->0)) {
        assert forall|i: int| 0 <= i < parts.len() implies is_blank_part(#[trigger] parts[i]) by {
            assert(holds_text(parts[i]));
            lemma_holds_text(parts[i]);
        }
        assert(only_blank_parts(parts));
    }
}

/// The message for an item has the role of the item, which is the user where
/// none is given and the system where it is the developer, the content of the
/// item, and nothing else.
pub proof fn messages_keep_role_and_content(item: Json)
    ensures
        item.str_at("role"@) is None ==> chat_message(item).role == "user"@,
        item.str_at("role"@) == Some("developer"@) ==> chat_message(item).role == "system"@,
        item.str_at("role"@) matches Some(role) ==> role != "developer"@ ==> chat_message(
            item,
        ).role == role,
        chat_message(item).content == chat_content(item.get("content"@)),
        chat_message(item).reasoning_content is None,
        chat_message(item).tool_calls is None,
        chat_message(item).tool_call_id is None,
        chat_message(item).name is None,
{
    lemma_literals();
}

/// A message can be left out exactly when it is a user or system message that
/// carries no content, makes no call and answers none.
pub proof fn only_blank_user_and_system_messages_go(m: Message)
    ensures
        droppable(m) <==> {
            &&& m.role == "user"@ || m.role == "system"@
            &&& m.tool_calls is None
            &&& m.tool_call_id is None
            &&& contentless(m.content)
        },
{
}

/// An item is only kept in mind exactly when it is a message of the user, the
/// system or the developer that carries no content.
pub proof fn only_blank_message_items_are_passed_over(item: Json)
    ensures
        contentless_item(item) <==> {
            let kind = item.str_at("type"@);
            let role = item.str_at("role"@);
            &&& kind == Some("message"@) || kind == Some("agent_message"@)
            &&& role is None || role == Some("user"@) || role == Some("system"@) || role == Some(
                "developer"@,
            )
            &&& contentless(item.get("content"@))
        },
{
    lemma_literals();
}

/// The messages that can be left out are left out one by one, the others stay
/// in their order.
pub proof fn messages_are_left_out_one_by_one(messages: Seq<Message>, m: Message)
    ensures
        with_content(Seq::<Message>::empty()) == Seq::<Message>::empty(),
        droppable(m) ==> with_content(messages.push(m)) == with_content(messages),
        !droppable(m) ==> with_content(messages.push(m)) == with_content(messages).push(m),
{
    reveal(Seq::filter);
    assert(messages.push(m).drop_last() =~= messages);
    assert(with_content(Seq::<Message>::empty()) =~= Seq::<Message>::empty());
}

/// Where some message cannot be left out, all are left out that can be; where
/// all can be, the newest stays.
pub proof fn the_newest_of_blank_messages_stays(messages: Seq<Message>)
    ensures
        (exists|i: int| 0 <= i < messages.len() && !droppable(#[trigger] messages[i]))
            ==> without_contentless(messages) == with_content(messages),
        messages.len() > 0 && (forall|i: int|
            0 <= i < messages.len() ==> droppable(#[trigger] messages[i])) ==> without_contentless(
            messages,
        ) == seq![messages[messages.len() - 1]],
        messages.len() == 0 ==> without_contentless(messages).len() == 0,
{
}

} // verus!
