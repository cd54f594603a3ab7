//! What a response is made of, item by item.
use vstd::prelude::*;

use crate::call_laws::only_white_space;
use crate::calls::custom_input;
use crate::ids::{is_hex_digit, uuid_text};
use crate::json::{Json, jsons_of, parsed_json};
use crate::literals::lemma_literals;
use crate::response::{
    call_item, call_items, calls_of, counted, first_choice, fresh_ids, function_text, has_reasoning,
    ids_needed, is_response, leading_items, output_items,
};
use crate::tool_laws::{
    converted_custom_tools_are_found, custom_tools_offer_one_required_string,
    declares_apply_patch_function, input_field,
};
use crate::tool_names::{ToolId, custom_entries, last_wins};
use crate::tools::custom_chat_tool;
use crate::types::{ChatResponse, ChatUsage, Message, ResponsesResponse};

verus! {

/// Whether an item is an assistant message whose content is exactly this text.
pub open spec fn says(item: Json, text: Seq<char>) -> bool {
    let content = item.items_at("content"@);
    &&& item.get("type"@) == Some(Json::String("message"@))
    &&& item.get("role"@) == Some(Json::String("assistant"@))
    &&& forall|k: Seq<char>| #[trigger]
        item.get(k) is Some <==> k == "type"@ || k == "role"@ || k == "content"@
    &&& content.len() == 1
    &&& content[0].get("type"@) == Some(Json::String("output_text"@))
    &&& content[0].get("text"@) == Some(Json::String(text))
    &&& forall|k: Seq<char>| #[trigger] content[0].get(k) is Some <==> k == "type"@ || k == "text"@
}

/// Whether an item is a reasoning item whose summary is exactly this text.
pub open spec fn reasons(item: Json, text: Seq<char>, fresh: Seq<char>) -> bool {
    let summary = item.items_at("summary"@);
    &&& item.get("type"@) == Some(Json::String("reasoning"@))
    &&& item.get("id"@) == Some(Json::String("rs_"@ + fresh))
    &&& forall|k: Seq<char>| #[trigger]
        item.get(k) is Some <==> k == "type"@ || k == "id"@ || k == "summary"@
    &&& summary.len() == 1
    &&& summary[0].get("type"@) == Some(Json::String("summary_text"@))
    &&& summary[0].get("text"@) == Some(Json::String(text))
    &&& forall|k: Seq<char>| #[trigger] summary[0].get(k) is Some <==> k == "type"@ || k == "text"@
}

/// The reasoning of a message, or nothing.
pub open spec fn reasoning_of(message: Message) -> Seq<char> {
    match message.reasoning_content {
        Some(text) => text,
        None => Seq::empty(),
    }
}

/// The tool calls of a message, or none.
pub open spec fn made_by(message: Message) -> Seq<Json> {
    match message.tool_calls {
        Some(calls) => calls,
        None => Seq::empty(),
    }
}

/// The items for a message are: its reasoning where it has any; its text where
/// it has any, with or without calls and reasoning, and an empty text where it
/// has no calls either; then one item for each call, in their order.
pub proof fn a_message_gives_its_parts_in_order(
    message: Message,
    namespaces: Map<Seq<char>, ToolId>,
    custom: Map<Seq<char>, ToolId>,
    fresh: Seq<Seq<char>>,
)
    requires
        fresh.len() == ids_needed(message),
    ensures
        ({
            let output = output_items(message, namespaces, custom, fresh);
            let calls = made_by(message);
            let r: int = if reasoning_of(message).len() > 0 {
                1
            } else {
                0
            };
            let t: int = if message.text().len() > 0 || message.tool_calls is None {
                1
            } else {
                0
            };
            &&& fresh.len() == r + calls.len()
            &&& output.len() == r + t + calls.len()
            &&& r == 1 ==> reasons(output[0], reasoning_of(message), fresh[0])
            &&& t == 1 ==> says(output[r], message.text())
            &&& forall|i: int|
                0 <= i < calls.len() ==> output[r + t + i] == call_item(
                    #[trigger] calls[i],
                    namespaces,
                    custom,
                    fresh[r + i],
                )
        }),
{
    lemma_literals();
    let output = output_items(message, namespaces, custom, fresh);
    let leading = leading_items(message, fresh);
    let calls = made_by(message);
    assert(calls_of(message) == calls);
    let r: int = if reasoning_of(message).len() > 0 {
        1
    } else {
        0
    };
    assert(has_reasoning(message) <==> r == 1);
    let t: int = if message.text().len() > 0 || message.tool_calls is None {
        1
    } else {
        0
    };
    assert(leading.len() == r + t);
    if r == 1 {
        assert(output[0] == leading[0]);
        assert(reasons(leading[0], reasoning_of(message), fresh[0]));
    }
    if t == 1 {
        assert(output[r] == leading[r]);
        assert(says(leading[r], message.text()));
    }
    let rest = if r == 1 {
        fresh.skip(1)
    } else {
        fresh
    };
    let items = call_items(calls, namespaces, custom, rest);
    assert forall|i: int| 0 <= i < calls.len() implies output[r + t + i] == call_item(
        #[trigger] calls[i],
        namespaces,
        custom,
        fresh[r + i],
    ) by {
        assert(rest[i] == fresh[r + i]);
        assert(output[r + t + i] == items[i]);
    }
}

/// Whether an item stands for a call, under some identifier.
pub open spec fn is_item_for(
    item: Json,
    call: Json,
    namespaces: Map<Seq<char>, ToolId>,
    custom: Map<Seq<char>, ToolId>,
) -> bool {
    exists|id: Seq<char>| item == #[trigger] call_item(call, namespaces, custom, id)
}

/// A text that is not empty is said in the output, before every item for a
/// call, whether or not there are calls and whether or not there is reasoning.
pub proof fn a_text_is_said_before_the_calls(
    message: Message,
    namespaces: Map<Seq<char>, ToolId>,
    custom: Map<Seq<char>, ToolId>,
    fresh: Seq<Seq<char>>,
)
    requires
        fresh.len() == ids_needed(message),
        message.text().len() > 0,
    ensures
        ({
            let output = output_items(message, namespaces, custom, fresh);
            let calls = made_by(message);
            &&& output.len() > calls.len()
            &&& says(output[output.len() - calls.len() - 1], message.text())
            &&& forall|i: int|
                0 <= i < calls.len() ==> is_item_for(
                    output[output.len() - calls.len() + i],
                    #[trigger] calls[i],
                    namespaces,
                    custom,
                )
        }),
{
    a_message_gives_its_parts_in_order(message, namespaces, custom, fresh);
    let output = output_items(message, namespaces, custom, fresh);
    let calls = made_by(message);
    let r: int = if reasoning_of(message).len() > 0 {
        1
    } else {
        0
    };
    assert forall|i: int| 0 <= i < calls.len() implies is_item_for(
        output[output.len() - calls.len() + i],
        #[trigger] calls[i],
        namespaces,
        custom,
    ) by {
        assert(output[r + 1 + i] == call_item(calls[i], namespaces, custom, fresh[r + i]));
    }
}

/// The text under a key of the `function` member of a call, or nothing.
pub open spec fn called(call: Json, key: Seq<char>) -> Seq<char> {
    match call.get("function"@) {
        Some(function) => match function.str_at(key) {
            Some(text) => text,
            None => ""@,
        },
        None => ""@,
    }
}

/// The ID of a call, or nothing.
pub open spec fn id_of(call: Json) -> Seq<char> {
    match call.str_at("id"@) {
        Some(id) => id,
        None => ""@,
    }
}

/// A call of a custom tool: the item has the ID of the call, the name of the
/// tool, and as its input what the arguments carry in the field of the tool.
pub proof fn custom_calls_give_their_input(
    call: Json,
    namespaces: Map<Seq<char>, ToolId>,
    custom: Map<Seq<char>, ToolId>,
    fresh: Seq<char>,
)
    requires
        custom.contains_key(called(call, "name"@)),
    ensures
        ({
            let item = call_item(call, namespaces, custom, fresh);
            let (name, field) = custom[called(call, "name"@)];
            &&& item.get("type"@) == Some(Json::String("custom_tool_call"@))
            &&& item.get("id"@) == Some(Json::String("ctc_"@ + fresh))
            &&& item.get("call_id"@) == Some(Json::String(id_of(call)))
            &&& item.get("name"@) == Some(Json::String(name))
            &&& item.get("input"@) == Some(
                Json::String(custom_input(called(call, "arguments"@), field)),
            )
            &&& item.get("status"@) == Some(Json::String("completed"@))
            &&& forall|k: Seq<char>| #[trigger]
                item.get(k) is Some <==> k == "type"@ || k == "id"@ || k == "call_id"@ || k
                    == "name"@ || k == "input"@ || k == "status"@
        }),
{
    lemma_literals();
}

/// A call of a custom tool with arguments that fit the schema offered to the
/// upstream, an object with a text under the one required property, gives that
/// text as the input of the tool.
pub proof fn fitting_arguments_give_the_input(
    tools: Seq<Json>,
    denied: Set<Seq<char>>,
    tool: Json,
    name: Seq<char>,
    field: Seq<char>,
    read: Json,
    input: Seq<char>,
    call: Json,
    namespaces: Map<Seq<char>, ToolId>,
    fresh: Seq<char>,
)
    requires
        tool.has_str("type"@, "custom"@),
        tool.str_at("name"@) == Some(name),
        !denied.contains(name),
        tools.contains(tool) || exists|i: int|
            0 <= i < tools.len() && (#[trigger] tools[i]).has_str("type"@, "namespace"@)
                && tools[i].items_at("tools"@).contains(tool),
        name == "apply_patch"@ ==> !declares_apply_patch_function(tools),
        ({
            let offered = custom_chat_tool(tool, denied)->0.get("function"@)->0;
            &&& offered.str_at("name"@) == Some(called(call, "name"@))
            &&& offered.get("parameters"@)->0.get("required"@) == Some(
                Json::Array(seq![Json::String(field)]),
            )
        }),
        parsed_json(called(call, "arguments"@)) == Some(read),
        read.get(field) == Some(Json::String(input)),
    ensures
        ({
            let custom = last_wins(custom_entries(tools, denied));
            let item = call_item(call, namespaces, custom, fresh);
            &&& item.get("type"@) == Some(Json::String("custom_tool_call"@))
            &&& item.get("name"@) == Some(Json::String(name))
            &&& item.get("input"@) == Some(Json::String(input))
        }),
{
    let custom = last_wins(custom_entries(tools, denied));
    custom_tools_offer_one_required_string(tool, denied);
    converted_custom_tools_are_found(tools, denied, tool, name);
    let required = seq![Json::String(input_field(name))];
    assert(required == seq![Json::String(field)]);
    assert(required[0] == seq![Json::String(field)][0]);
    assert(field == input_field(name));
    assert(called(call, "name"@) == name);
    custom_calls_give_their_input(call, namespaces, custom, fresh);
    crate::call_laws::custom_input_is_the_text_in_the_field(called(call, "arguments"@), field);
}

/// A call of a function: the item has the ID of the call and the arguments,
/// the declared name and namespace where the flat name is known, and the flat
/// name itself where it is not.
pub proof fn function_calls_give_their_arguments(
    call: Json,
    namespaces: Map<Seq<char>, ToolId>,
    custom: Map<Seq<char>, ToolId>,
    fresh: Seq<char>,
)
    requires
        !custom.contains_key(called(call, "name"@)),
    ensures
        ({
            let item = call_item(call, namespaces, custom, fresh);
            let flat = called(call, "name"@);
            let arguments = called(call, "arguments"@);
            let known = namespaces.contains_key(flat);
            let (namespace, name) = namespaces[flat];
            let plain = known && namespace == "collaboration"@ && (name == "spawn_agent"@ || name
                == "send_message"@ || name == "followup_task"@);
            &&& item.get("type"@) == Some(Json::String("function_call"@))
            &&& item.get("id"@) == Some(Json::String("fc_"@ + fresh))
            &&& item.get("call_id"@) == Some(Json::String(id_of(call)))
            &&& item.get("name"@) == Some(
                Json::String(
                    if known {
                        name
                    } else {
                        flat
                    },
                ),
            )
            &&& item.get("arguments"@) == Some(
                Json::String(
                    if only_white_space(arguments) {
                        "{}"@
                    } else {
                        arguments
                    },
                ),
            )
            &&& item.get("status"@) == Some(Json::String("completed"@))
            &&& item.get("namespace"@) == if known {
                Some(Json::String(namespace))
            } else {
                None
            }
            &&& item.get("encrypted_function_args"@) == if plain {
                Some(Json::Array(Seq::empty()))
            } else {
                None
            }
            &&& forall|k: Seq<char>| #[trigger]
                item.get(k) is Some ==> k == "type"@ || k == "id"@ || k == "call_id"@ || k
                    == "name"@ || k == "arguments"@ || k == "status"@ || k == "namespace"@ || k
                    == "encrypted_function_args"@
        }),
{
    lemma_literals();
    crate::call_laws::blank_arguments_become_an_empty_object(called(call, "arguments"@));
    assert(function_text(call, "name"@) == called(call, "name"@));
    assert(function_text(call, "arguments"@) == called(call, "arguments"@));
}

/// The message that counts is that of the first choice; without a choice it is
/// an empty assistant message. Without usage numbers each of them is zero.
pub proof fn the_first_choice_counts(chat: ChatResponse)
    ensures
        chat.choices@.len() > 0 ==> first_choice(chat) == chat.choices@[0].message@,
        chat.choices@.len() == 0 ==> {
            let m = first_choice(chat);
            &&& m.role == "assistant"@
            &&& m.content == Some(Json::String(Seq::empty()))
            &&& m.reasoning_content is None
            &&& m.tool_calls is None
            &&& m.tool_call_id is None
            &&& m.name is None
        },
        chat.usage matches Some(usage) ==> counted(chat) == usage,
        chat.usage is None ==> {
            let usage = counted(chat);
            &&& usage.prompt_tokens == 0
            &&& usage.completion_tokens == 0
            &&& usage.total_tokens == 0
            &&& usage.cache_hit_tokens == 0
        },
{
}

/// A response has the ID, the model and the items that it is made of, and the
/// token counts of the upstream, those from its cache among them.
pub proof fn a_response_shows_its_parts(
    r: ResponsesResponse,
    id: Seq<char>,
    model: Seq<char>,
    output: Seq<Json>,
    usage: ChatUsage,
)
    requires
        is_response(r, id, model, output, usage),
    ensures
        r.id@ == id,
        r.object@ == "response"@,
        r.model@ == model,
        r.output@.len() == output.len(),
        forall|i: int| 0 <= i < output.len() ==> (#[trigger] r.output@[i])@ == output[i],
        r.usage.input_tokens == usage.prompt_tokens,
        r.usage.output_tokens == usage.completion_tokens,
        r.usage.total_tokens == usage.total_tokens,
        r.usage.input_tokens_details matches Some(details) && details.cached_tokens
            == usage.cache_hit_tokens,
{
    assert forall|i: int| 0 <= i < output.len() implies (#[trigger] r.output@[i])@ == output[i] by {
        assert(jsons_of(r.output@)[i] == output[i]);
    }
}

/// As many identifiers are needed as there are calls, and one more where there
/// is reasoning.
pub proof fn each_call_needs_an_id(message: Message)
    ensures
        ids_needed(message) == made_by(message).len() + (if reasoning_of(message).len() > 0 {
            1nat
        } else {
            0nat
        }),
{
}

/// Identifiers are random UUIDs: thirty-two hexadecimal digits each.
pub proof fn identifiers_are_uuids(ids: Seq<Seq<char>>, i: int)
    requires
        fresh_ids(ids),
        0 <= i < ids.len(),
    ensures
        uuid_text(ids[i]),
        ids[i].len() == 32,
        forall|j: int| 0 <= j < 32 ==> is_hex_digit(#[trigger] ids[i][j]),
{
}

} // verus!
