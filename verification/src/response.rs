//! From a Chat Completions response to a Responses response.
use vstd::prelude::*;

use crate::calls::{
    complete_message_tool_arguments, completed, completed_message, completed_tool_arguments,
    custom_input, custom_tool_input, one_member,
};
use crate::conversation::{is_call, item_call_id, replayed_arguments};
use crate::ids::{fresh_uuid, uuid_text};
use crate::json::{Json, JsonMap, JsonValue, json_text, jsons_of};
use crate::text::{joined, texts};
use crate::tool_names::{
    CustomToolMap, NamespaceToolMap, ToolId, custom_ids, declared_tool, namespace_ids,
    plaintext_arguments, replayed_name, response_function_name_for_responses,
    uses_plaintext_collaboration_args,
};
use crate::tools::namespaced;
use crate::types::{
    ChatMessage, ChatResponse, ChatUsage, InputTokensDetails, Message, ResponsesResponse,
    ResponsesUsage, messages_of,
};

verus! {

/// The message of the first choice; an empty one where there is no choice.
pub open spec fn first_choice(chat: ChatResponse) -> Message {
    if chat.choices@.len() > 0 {
        chat.choices@[0].message@
    } else {
        Message::plain("assistant"@, Some(Json::String(Seq::empty())))
    }
}

/// The token counts of a response; zeros where it has none.
pub open spec fn counted(chat: ChatResponse) -> ChatUsage {
    match chat.usage {
        Some(usage) => usage,
        None => ChatUsage {
            prompt_tokens: 0,
            completion_tokens: 0,
            total_tokens: 0,
            cache_hit_tokens: 0,
        },
    }
}

/// Whether a message comes with reasoning.
pub open spec fn has_reasoning(message: Message) -> bool {
    message.reasoning_content matches Some(text) && text.len() > 0
}

/// The item for the reasoning of a message.
pub open spec fn reasoning_item(text: Seq<char>, fresh: Seq<char>) -> Json {
    let summary = Json::Object(
        Map::<Seq<char>, Json>::empty().insert("type"@, Json::String("summary_text"@)).insert(
            "text"@,
            Json::String(text),
        ),
    );
    Json::Object(
        Map::<Seq<char>, Json>::empty().insert("type"@, Json::String("reasoning"@)).insert(
            "id"@,
            Json::String("rs_"@ + fresh),
        ).insert("summary"@, Json::Array(seq![summary])),
    )
}

/// The item for the text of a message.
pub open spec fn text_item(text: Seq<char>) -> Json {
    let part = Json::Object(
        Map::<Seq<char>, Json>::empty().insert("type"@, Json::String("output_text"@)).insert(
            "text"@,
            Json::String(text),
        ),
    );
    Json::Object(
        Map::<Seq<char>, Json>::empty().insert("type"@, Json::String("message"@)).insert(
            "role"@,
            Json::String("assistant"@),
        ).insert("content"@, Json::Array(seq![part])),
    )
}

/// The item for a call of a custom tool.
pub open spec fn custom_call_item(
    call_id: Seq<char>,
    name: Seq<char>,
    input: Seq<char>,
    fresh: Seq<char>,
) -> Json {
    Json::Object(
        Map::<Seq<char>, Json>::empty().insert("type"@, Json::String("custom_tool_call"@)).insert(
            "id"@,
            Json::String("ctc_"@ + fresh),
        ).insert("call_id"@, Json::String(call_id)).insert("name"@, Json::String(name)).insert(
            "input"@,
            Json::String(input),
        ).insert("status"@, Json::String("completed"@)),
    )
}

/// The members of the item for a call of a function that has no namespace.
pub open spec fn function_call_members(
    call_id: Seq<char>,
    name: Seq<char>,
    arguments: Seq<char>,
    fresh: Seq<char>,
) -> Map<Seq<char>, Json> {
    Map::<Seq<char>, Json>::empty().insert("type"@, Json::String("function_call"@)).insert(
        "id"@,
        Json::String("fc_"@ + fresh),
    ).insert("call_id"@, Json::String(call_id)).insert("name"@, Json::String(name)).insert(
        "arguments"@,
        Json::String(arguments),
    ).insert("status"@, Json::String("completed"@))
}

/// An item for a function call, with the namespace of the function.
pub open spec fn with_namespace(
    item: Map<Seq<char>, Json>,
    namespace: Option<Seq<char>>,
    name: Seq<char>,
) -> Map<Seq<char>, Json> {
    match namespace {
        Some(ns) => if plaintext_arguments(namespace, name) {
            item.insert("encrypted_function_args"@, Json::Array(Seq::empty())).insert(
                "namespace"@,
                Json::String(ns),
            )
        } else {
            item.insert("namespace"@, Json::String(ns))
        },
        None => item,
    }
}

/// The text under a key of the `function` member of a tool call.
pub open spec fn function_text(call: Json, key: Seq<char>) -> Seq<char> {
    match call.get("function"@) {
        Some(function) => function.str_or(key, ""@),
        None => ""@,
    }
}

/// The item for a tool call.
pub open spec fn call_item(
    call: Json,
    namespaces: Map<Seq<char>, ToolId>,
    custom: Map<Seq<char>, ToolId>,
    fresh: Seq<char>,
) -> Json {
    let raw_name = function_text(call, "name"@);
    let raw_arguments = function_text(call, "arguments"@);
    let call_id = call.str_or("id"@, ""@);
    if custom.contains_key(raw_name) {
        let (name, field) = custom[raw_name];
        custom_call_item(call_id, name, custom_input(raw_arguments, field), fresh)
    } else {
        let (namespace, name) = declared_tool(raw_name, namespaces);
        Json::Object(
            with_namespace(
                function_call_members(call_id, name, completed(raw_arguments), fresh),
                namespace,
                name,
            ),
        )
    }
}

/// The items for some tool calls, each with an identifier of its own.
pub open spec fn call_items(
    calls: Seq<Json>,
    namespaces: Map<Seq<char>, ToolId>,
    custom: Map<Seq<char>, ToolId>,
    fresh: Seq<Seq<char>>,
) -> Seq<Json> {
    Seq::new(calls.len(), |i: int| call_item(calls[i], namespaces, custom, fresh[i]))
}

/// The tool calls of a message.
pub open spec fn calls_of(message: Message) -> Seq<Json> {
    match message.tool_calls {
        Some(calls) => calls,
        None => Seq::empty(),
    }
}

/// How many identifiers the items for a message need.
pub open spec fn ids_needed(message: Message) -> nat {
    calls_of(message).len() + if has_reasoning(message) {
        1nat
    } else {
        0nat
    }
}

/// The items before the tool calls: the reasoning, and the text, unless there
/// is none and there are calls.
pub open spec fn leading_items(message: Message, fresh: Seq<Seq<char>>) -> Seq<Json> {
    let reasoning = if has_reasoning(message) {
        seq![reasoning_item(message.reasoning_content->0, fresh[0])]
    } else {
        Seq::empty()
    };
    if message.text().len() > 0 || message.tool_calls is None {
        reasoning.push(text_item(message.text()))
    } else {
        reasoning
    }
}

/// The items for a message.
pub open spec fn output_items(
    message: Message,
    namespaces: Map<Seq<char>, ToolId>,
    custom: Map<Seq<char>, ToolId>,
    fresh: Seq<Seq<char>>,
) -> Seq<Json> {
    let rest = if has_reasoning(message) {
        fresh.skip(1)
    } else {
        fresh
    };
    leading_items(message, fresh) + call_items(calls_of(message), namespaces, custom, rest)
}

/// Whether a response is made of these parts.
pub open spec fn is_response(
    r: ResponsesResponse,
    id: Seq<char>,
    model: Seq<char>,
    output: Seq<Json>,
    usage: ChatUsage,
) -> bool {
    &&& r.id@ == id
    &&& r.object@ == "response"@
    &&& r.model@ == model
    &&& jsons_of(r.output@) == output
    &&& r.usage == ResponsesUsage {
        input_tokens: usage.prompt_tokens,
        output_tokens: usage.completion_tokens,
        total_tokens: usage.total_tokens,
        input_tokens_details: Some(InputTokensDetails { cached_tokens: usage.cache_hit_tokens }),
    }
}

/// The item for the reasoning of a message.
pub fn reasoning_item_value(text: &str, fresh: &str) -> (r: JsonValue)
    ensures
        r@ == reasoning_item(text@, fresh@),
{
    let mut part = JsonMap::new();
    part.insert("type".to_owned(), JsonValue::text("summary_text"));
    part.insert("text".to_owned(), JsonValue::text(text));
    let mut summary: Vec<JsonValue> = Vec::new();
    summary.push(JsonValue::Object(part));
    assert(jsons_of(summary@) =~= seq![Json::Object(part@)]);
    let mut item = JsonMap::new();
    item.insert("type".to_owned(), JsonValue::text("reasoning"));
    item.insert("id".to_owned(), JsonValue::String(joined("rs_", fresh)));
    item.insert("summary".to_owned(), JsonValue::Array(summary));
    JsonValue::Object(item)
}

/// The item for the text of a message.
pub fn text_item_value(text: &str) -> (r: JsonValue)
    ensures
        r@ == text_item(text@),
{
    let mut part = JsonMap::new();
    part.insert("type".to_owned(), JsonValue::text("output_text"));
    part.insert("text".to_owned(), JsonValue::text(text));
    let mut content: Vec<JsonValue> = Vec::new();
    content.push(JsonValue::Object(part));
    assert(jsons_of(content@) =~= seq![Json::Object(part@)]);
    let mut item = JsonMap::new();
    item.insert("type".to_owned(), JsonValue::text("message"));
    item.insert("role".to_owned(), JsonValue::text("assistant"));
    item.insert("content".to_owned(), JsonValue::Array(content));
    JsonValue::Object(item)
}

/// The item for a call of a custom tool.
pub fn custom_call_item_value(call_id: &str, name: &str, input: String, fresh: &str) -> (r: JsonValue)
    ensures
        r@ == custom_call_item(call_id@, name@, input@, fresh@),
{
    let mut item = JsonMap::new();
    item.insert("type".to_owned(), JsonValue::text("custom_tool_call"));
    item.insert("id".to_owned(), JsonValue::String(joined("ctc_", fresh)));
    item.insert("call_id".to_owned(), JsonValue::text(call_id));
    item.insert("name".to_owned(), JsonValue::text(name));
    item.insert("input".to_owned(), JsonValue::String(input));
    item.insert("status".to_owned(), JsonValue::text("completed"));
    JsonValue::Object(item)
}

/// The item for a call of a function.
pub fn function_call_item_value(
    call_id: &str,
    namespace: Option<String>,
    name: String,
    arguments: &str,
    fresh: &str,
) -> (r: JsonValue)
    ensures
        r@ == Json::Object(
            with_namespace(
                function_call_members(call_id@, name@, arguments@, fresh@),
                crate::types::opt_text(namespace),
                name@,
            ),
        ),
{
    let plaintext = match &namespace {
        Some(namespace) => uses_plaintext_collaboration_args(
            Some(namespace.as_str()),
            name.as_str(),
        ),
        None => false,
    };
    let mut item = JsonMap::new();
    item.insert("type".to_owned(), JsonValue::text("function_call"));
    item.insert("id".to_owned(), JsonValue::String(joined("fc_", fresh)));
    item.insert("call_id".to_owned(), JsonValue::text(call_id));
    item.insert("name".to_owned(), JsonValue::String(name));
    item.insert("arguments".to_owned(), JsonValue::text(arguments));
    item.insert("status".to_owned(), JsonValue::text("completed"));
    if let Some(namespace) = namespace {
        if plaintext {
            let none: Vec<JsonValue> = Vec::new();
            assert(jsons_of(none@) =~= Seq::empty());
            item.insert("encrypted_function_args".to_owned(), JsonValue::Array(none));
        }
        item.insert("namespace".to_owned(), JsonValue::String(namespace));
    }
    JsonValue::Object(item)
}

/// The item for a tool call, with this identifier.
pub fn response_item_for_call(
    call: &JsonValue,
    namespace_tools: &NamespaceToolMap,
    custom_tools: &CustomToolMap,
    fresh: &str,
) -> (r: JsonValue)
    ensures
        r@ == call_item(
            call@,
            namespace_ids(*namespace_tools),
            custom_ids(*custom_tools),
            fresh@,
        ),
{
    let (raw_name, raw_arguments) = match call.get("function") {
        Some(function) => (function.str_or("name", ""), function.str_or("arguments", "")),
        None => ("", ""),
    };
    let call_id = call.str_or("id", "");
    match custom_tools.get(raw_name) {
        Some(custom) => {
            let input = custom_tool_input(raw_arguments, custom.argument_field.as_str());
            custom_call_item_value(call_id, custom.name.as_str(), input, fresh)
        },
        None => {
            let (namespace, name) = response_function_name_for_responses(raw_name, namespace_tools);
            function_call_item_value(
                call_id,
                namespace,
                name,
                completed_tool_arguments(raw_arguments),
                fresh,
            )
        },
    }
}

/// The items for a message, with these identifiers.
pub fn response_output(
    message: &ChatMessage,
    namespace_tools: &NamespaceToolMap,
    custom_tools: &CustomToolMap,
    fresh: &Vec<String>,
) -> (r: Vec<JsonValue>)
    requires
        fresh@.len() == ids_needed(message@),
    ensures
        jsons_of(r@) == output_items(
            message@,
            namespace_ids(*namespace_tools),
            custom_ids(*custom_tools),
            texts(fresh@),
        ),
{
    let ghost namespaces = namespace_ids(*namespace_tools);
    let ghost custom = custom_ids(*custom_tools);
    let ghost ids = texts(fresh@);
    let mut output: Vec<JsonValue> = Vec::new();
    let mut used: usize = 0;
    if let Some(reasoning) = &message.reasoning_content {
        if !reasoning.as_str().is_empty() {
            output.push(reasoning_item_value(reasoning.as_str(), fresh[0].as_str()));
            used = 1;
        }
    }
    let text = message.text_content();
    if !text.is_empty() || message.tool_calls.is_none() {
        output.push(text_item_value(text));
    }
    let ghost leading = leading_items(message@, ids);
    assert(jsons_of(output@) =~= leading);
    let ghost rest = ids.skip(used as int);
    assert(rest == if has_reasoning(message@) {
        ids.skip(1)
    } else {
        ids
    }) by {
        assert(ids.skip(0) =~= ids);
    }
    if let Some(calls) = &message.tool_calls {
        let ghost all = jsons_of(calls@);
        let mut i: usize = 0;
        assert(jsons_of(output@) =~= leading + call_items(all, namespaces, custom, rest).take(0));
        while i < calls.len()
            invariant
                i <= calls@.len(),
                all == jsons_of(calls@),
                namespaces == namespace_ids(*namespace_tools),
                custom == custom_ids(*custom_tools),
                ids == texts(fresh@),
                rest == ids.skip(used as int),
                used <= 1,
                used + calls@.len() == fresh@.len(),
                jsons_of(output@) == leading + call_items(all, namespaces, custom, rest).take(
                    i as int,
                ),
            decreases calls.len() - i,
        {
            let ghost before = jsons_of(output@);
            let item = response_item_for_call(
                &calls[i],
                namespace_tools,
                custom_tools,
                fresh[used + i].as_str(),
            );
            output.push(item);
            proof {
                let items = call_items(all, namespaces, custom, rest);
                assert(items[i as int] == item@);
                assert(jsons_of(output@) =~= before.push(item@));
                assert(jsons_of(output@) =~= leading + items.take(i + 1));
            }
            i = i + 1;
        }
        assert(call_items(all, namespaces, custom, rest).take(i as int) =~= call_items(
            all,
            namespaces,
            custom,
            rest,
        ));
    } else {
        assert(leading + call_items(Seq::empty(), namespaces, custom, rest) =~= leading);
    }
    output
}

/// Whether these are identifiers, each of them random.
pub open spec fn fresh_ids(ids: Seq<Seq<char>>) -> bool {
    forall|i: int| 0 <= i < ids.len() ==> uuid_text(#[trigger] ids[i])
}

fn make_ids(message: &ChatMessage) -> (r: Vec<String>)
    ensures
        r@.len() == ids_needed(message@),
        fresh_ids(texts(r@)),
{
    let mut ids: Vec<String> = Vec::new();
    if let Some(reasoning) = &message.reasoning_content {
        if !reasoning.as_str().is_empty() {
            ids.push(fresh_uuid());
        }
    }
    if let Some(calls) = &message.tool_calls {
        let ghost before = ids@.len();
        let mut i: usize = 0;
        while i < calls.len()
            invariant
                i <= calls@.len(),
                ids@.len() == before + i,
                forall|j: int| 0 <= j < ids@.len() ==> uuid_text((#[trigger] ids@[j])@),
            decreases calls.len() - i,
        {
            ids.push(fresh_uuid());
            i = i + 1;
        }
    }
    assert forall|j: int| 0 <= j < texts(ids@).len() implies uuid_text(
        #[trigger] texts(ids@)[j],
    ) by {
        assert(uuid_text(ids@[j]@));
    }
    ids
}

fn take_first_choice(chat: ChatResponse) -> (r: (ChatMessage, ChatUsage))
    ensures
        r.0@ == first_choice(chat),
        r.1 == counted(chat),
{
    let usage = match chat.usage {
        Some(usage) => usage,
        None => ChatUsage::default(),
    };
    let mut choices = chat.choices;
    let message = if choices.len() > 0 {
        choices.remove(0).message
    } else {
        ChatMessage::plain("assistant", Some(JsonValue::String(String::new())))
    };
    (message, usage)
}

fn assemble(
    id: String,
    model: &str,
    message: ChatMessage,
    usage: ChatUsage,
    output: Vec<JsonValue>,
) -> (r: (ResponsesResponse, Vec<ChatMessage>))
    ensures
        is_response(r.0, id@, model@, jsons_of(output@), usage),
        messages_of(r.1@) == seq![completed_message(message@)],
{
    let response = ResponsesResponse {
        id,
        object: "response",
        model: model.to_owned(),
        output,
        usage: ResponsesUsage {
            input_tokens: usage.prompt_tokens,
            output_tokens: usage.completion_tokens,
            total_tokens: usage.total_tokens,
            input_tokens_details: Some(InputTokensDetails { cached_tokens: usage.cache_hit() }),
        },
    };
    let mut message = message;
    complete_message_tool_arguments(&mut message);
    let mut history: Vec<ChatMessage> = Vec::new();
    history.push(message);
    assert(messages_of(history@) =~= seq![message@]);
    (response, history)
}

/// Converts a Chat Completions response into a Responses API response, with
/// these identifiers for its items. The second part is what the response adds
/// to the history: the message, its tool calls with their arguments.
pub fn from_chat_response_with_ids(
    id: String,
    model: &str,
    chat: ChatResponse,
    namespace_tools: &NamespaceToolMap,
    custom_tools: &CustomToolMap,
    fresh: &Vec<String>,
) -> (r: (ResponsesResponse, Vec<ChatMessage>))
    requires
        fresh@.len() == ids_needed(first_choice(chat)),
    ensures
        is_response(
            r.0,
            id@,
            model@,
            output_items(
                first_choice(chat),
                namespace_ids(*namespace_tools),
                custom_ids(*custom_tools),
                texts(fresh@),
            ),
            counted(chat),
        ),
        messages_of(r.1@) == seq![completed_message(first_choice(chat))],
{
    let (message, usage) = take_first_choice(chat);
    let output = response_output(&message, namespace_tools, custom_tools, fresh);
    assemble(id, model, message, usage, output)
}

/// Converts a Chat Completions response into a Responses API response, by the
/// tools of the request, with random identifiers for its items.
///
/// The message of the choice is taken as it stands: markup that a model leaked
/// into its text is to be healed before.
pub fn from_chat_response_with_tool_maps(
    id: String,
    model: &str,
    chat: ChatResponse,
    namespace_tools: &NamespaceToolMap,
    custom_tools: &CustomToolMap,
) -> (r: (ResponsesResponse, Vec<ChatMessage>))
    ensures
        exists|fresh: Seq<Seq<char>>|
            {
                &&& fresh_ids(fresh)
                &&& fresh.len() == ids_needed(first_choice(chat))
                &&& is_response(
                    r.0,
                    id@,
                    model@,
                    #[trigger] output_items(
                        first_choice(chat),
                        namespace_ids(*namespace_tools),
                        custom_ids(*custom_tools),
                        fresh,
                    ),
                    counted(chat),
                )
            },
        messages_of(r.1@) == seq![completed_message(first_choice(chat))],
{
    let (message, usage) = take_first_choice(chat);
    let fresh = make_ids(&message);
    let output = response_output(&message, namespace_tools, custom_tools, &fresh);
    assemble(id, model, message, usage, output)
}

/// Converts a Chat Completions response into a Responses API response, for a
/// request without custom tools.
pub fn from_chat_response_with_tool_map(
    id: String,
    model: &str,
    chat: ChatResponse,
    namespace_tools: &NamespaceToolMap,
) -> (r: (ResponsesResponse, Vec<ChatMessage>))
    ensures
        exists|fresh: Seq<Seq<char>>|
            {
                &&& fresh_ids(fresh)
                &&& fresh.len() == ids_needed(first_choice(chat))
                &&& is_response(
                    r.0,
                    id@,
                    model@,
                    #[trigger] output_items(
                        first_choice(chat),
                        namespace_ids(*namespace_tools),
                        Map::empty(),
                        fresh,
                    ),
                    counted(chat),
                )
            },
        messages_of(r.1@) == seq![completed_message(first_choice(chat))],
{
    let custom_tools = CustomToolMap::new();
    assert(custom_ids(custom_tools) =~= Map::empty());
    from_chat_response_with_tool_maps(id, model, chat, namespace_tools, &custom_tools)
}

/// Converts a Chat Completions response into a Responses API response, for a
/// request without namespaces or custom tools.
pub fn from_chat_response(id: String, model: &str, chat: ChatResponse) -> (r: (
    ResponsesResponse,
    Vec<ChatMessage>,
))
    ensures
        exists|fresh: Seq<Seq<char>>|
            {
                &&& fresh_ids(fresh)
                &&& fresh.len() == ids_needed(first_choice(chat))
                &&& is_response(
                    r.0,
                    id@,
                    model@,
                    #[trigger] output_items(first_choice(chat), Map::empty(), Map::empty(), fresh),
                    counted(chat),
                )
            },
        messages_of(r.1@) == seq![completed_message(first_choice(chat))],
{
    let namespace_tools = NamespaceToolMap::new();
    assert(namespace_ids(namespace_tools) =~= Map::empty());
    from_chat_response_with_tool_map(id, model, chat, &namespace_tools)
}

proof fn lemma_item_keys_differ()
    ensures
        "type"@ != "id"@,
        "type"@ != "call_id"@,
        "type"@ != "name"@,
        "type"@ != "arguments"@,
        "type"@ != "input"@,
        "type"@ != "status"@,
        "type"@ != "namespace"@,
        "type"@ != "encrypted_function_args"@,
        "call_id"@ != "name"@,
        "call_id"@ != "arguments"@,
        "call_id"@ != "input"@,
        "call_id"@ != "status"@,
        "call_id"@ != "namespace"@,
        "call_id"@ != "encrypted_function_args"@,
        "name"@ != "arguments"@,
        "name"@ != "input"@,
        "name"@ != "status"@,
        "name"@ != "namespace"@,
        "name"@ != "encrypted_function_args"@,
        "arguments"@ != "status"@,
        "arguments"@ != "namespace"@,
        "arguments"@ != "encrypted_function_args"@,
        "input"@ != "status"@,
        "namespace"@ != "id"@,
        "namespace"@ != "status"@,
        "namespace"@ != "input"@,
        "function_call"@ != "custom_tool_call"@,
{
    reveal_strlit("type");
    reveal_strlit("id");
    reveal_strlit("call_id");
    reveal_strlit("name");
    reveal_strlit("arguments");
    reveal_strlit("input");
    reveal_strlit("status");
    reveal_strlit("namespace");
    reveal_strlit("encrypted_function_args");
    reveal_strlit("function_call");
    reveal_strlit("custom_tool_call");
    assert("id"@.len() == 2 && "type"@.len() == 4 && "name"@.len() == 4);
    assert("type"@[0] == 't' && "name"@[0] == 'n');
    assert("input"@.len() == 5 && "status"@.len() == 6 && "call_id"@.len() == 7);
    assert("arguments"@.len() == 9 && "namespace"@.len() == 9);
    assert("arguments"@[0] == 'a' && "namespace"@[0] == 'n');
    assert("encrypted_function_args"@.len() == 23);
    assert("function_call"@.len() == 13 && "custom_tool_call"@.len() == 16);
}

/// The item for a call of a function, replayed, makes the same call again:
/// under the same ID and the same flat name, with its completed arguments. A
/// namespace has a name that is not empty, and leads from the flat name.
pub proof fn function_calls_are_replayed(
    call: Json,
    namespaces: Map<Seq<char>, ToolId>,
    custom: Map<Seq<char>, ToolId>,
    fresh: Seq<char>,
)
    requires
        !custom.contains_key(function_text(call, "name"@)),
        namespaces.contains_key(function_text(call, "name"@)) ==> {
            let id = namespaces[function_text(call, "name"@)];
            id.0.len() > 0 && function_text(call, "name"@) == namespaced(id.0, id.1)
        },
    ensures
        ({
            let item = call_item(call, namespaces, custom, fresh);
            &&& is_call(item)
            &&& item_call_id(item) == call.str_or("id"@, ""@)
            &&& replayed_name(item) == function_text(call, "name"@)
            &&& replayed_arguments(item, custom) == completed(function_text(call, "arguments"@))
        }),
{
    lemma_item_keys_differ();
    reveal_strlit("");
    let item = call_item(call, namespaces, custom, fresh);
    let raw_name = function_text(call, "name"@);
    let raw_arguments = function_text(call, "arguments"@);
    let (namespace, name) = declared_tool(raw_name, namespaces);
    assert(item.str_at("type"@) == Some("function_call"@));
    assert(item.str_at("call_id"@) == Some(call.str_or("id"@, ""@)));
    assert(item.str_at("name"@) == Some(name));
    assert(item.str_at("arguments"@) == Some(completed(raw_arguments)));
    assert(item.str_at("namespace"@) == namespace);
    crate::calls::completed_arguments_are_not_blank(raw_arguments);
}

/// The item for a call of a custom tool, replayed, makes the same call again:
/// under the same ID and the name of the tool, with its input in the declared
/// field.
pub proof fn custom_calls_are_replayed(
    call: Json,
    namespaces: Map<Seq<char>, ToolId>,
    custom: Map<Seq<char>, ToolId>,
    fresh: Seq<char>,
)
    requires
        custom.contains_key(function_text(call, "name"@)),
        custom[function_text(call, "name"@)].0 == function_text(call, "name"@),
    ensures
        ({
            let item = call_item(call, namespaces, custom, fresh);
            let field = custom[function_text(call, "name"@)].1;
            let input = custom_input(function_text(call, "arguments"@), field);
            &&& is_call(item)
            &&& item_call_id(item) == call.str_or("id"@, ""@)
            &&& replayed_name(item) == function_text(call, "name"@)
            &&& replayed_arguments(item, custom) == json_text(
                one_member(field, Json::String(input)),
            )
        }),
{
    lemma_item_keys_differ();
    reveal_strlit("");
    let item = call_item(call, namespaces, custom, fresh);
    let raw_name = function_text(call, "name"@);
    assert(item.str_at("type"@) == Some("custom_tool_call"@));
    assert(item.str_at("call_id"@) == Some(call.str_or("id"@, ""@)));
    assert(item.str_at("name"@) == Some(raw_name));
    assert(item.get("namespace"@) is None);
}

} // verus!
