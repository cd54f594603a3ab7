//! Input items: the forms that a strict Responses endpoint takes.
use vstd::prelude::*;

use crate::calls::{custom_arguments, one_member};
use crate::json::{Json, JsonMap, JsonValue, json_text};
use crate::text::joined;
use crate::tools::{argument_field, custom_argument_field};
use crate::types::opt_value;

verus! {

/// The text of a tool output: a string as it is, any other value written out.
pub open spec fn output_text(output: Option<Json>) -> Seq<char> {
    match output {
        Some(Json::String(text)) => text,
        Some(value) => json_text(value),
        None => Seq::empty(),
    }
}

/// The text of a tool output: a string as it is, any other value written out.
pub fn response_output_text(value: Option<&JsonValue>) -> (r: String)
    ensures
        r@ == output_text(opt_value(value)),
{
    match value {
        Some(JsonValue::String(text)) => text.clone(),
        Some(value) => value.to_text(),
        None => String::new(),
    }
}

/// Whether an item is a tool output that belongs to no call.
pub open spec fn is_orphan_output(item: Json) -> bool {
    item.has_str("type"@, "function_call_output"@) && item.str_or("call_id"@, ""@).len() == 0
}

/// A function call item.
pub open spec fn function_call_item(call_id: Json, name: Seq<char>, arguments: Seq<char>) -> Json {
    Json::Object(
        Map::<Seq<char>, Json>::empty().insert("type"@, Json::String("function_call"@)).insert(
            "call_id"@,
            call_id,
        ).insert("name"@, Json::String(name)).insert("arguments"@, Json::String(arguments)),
    )
}

/// The function call that stands for a custom tool call.
pub open spec fn custom_as_function_call(item: Json) -> Json {
    let name = item.str_or("name"@, "tool"@);
    let input = match item.get("input"@) {
        Some(input) => input,
        None => Json::String(""@),
    };
    let call_id = match item.get("call_id"@) {
        Some(id) => id,
        None => Json::Null,
    };
    function_call_item(call_id, name, json_text(one_member(argument_field(name), input)))
}

/// The tool that an output names.
pub open spec fn output_label(item: Json) -> Seq<char> {
    let name = item.str_or("name"@, "tool"@);
    let namespace = item.str_or("namespace"@, ""@);
    if namespace.len() == 0 {
        name
    } else {
        namespace + "/"@ + name
    }
}

/// A developer message item about the output of a tool.
pub open spec fn output_message_item(label: Seq<char>, output: Seq<char>) -> Json {
    Json::Object(
        Map::<Seq<char>, Json>::empty().insert("type"@, Json::String("message"@)).insert(
            "role"@,
            Json::String("developer"@),
        ).insert("content"@, Json::String("["@ + label + " output]\n"@ + output)),
    )
}

/// The developer message that stands for an output that belongs to no call.
pub open spec fn orphan_as_message(item: Json) -> Json {
    output_message_item(output_label(item), output_text(item.get("output"@)))
}

/// The form of an input item that a strict endpoint takes.
///
/// A custom tool call becomes a function call, its output a function call
/// output, and an output that belongs to no call a developer message. Every
/// other item stays as it is.
pub open spec fn normalized_item(item: Json) -> Json {
    match item {
        Json::Object(m) => if item.has_str("type"@, "custom_tool_call"@) {
            custom_as_function_call(item)
        } else if item.has_str("type"@, "custom_tool_call_output"@) {
            Json::Object(m.insert("type"@, Json::String("function_call_output"@)))
        } else if is_orphan_output(item) {
            orphan_as_message(item)
        } else {
            item
        },
        _ => item,
    }
}

/// Whether [`normalized_item`] changes an item.
pub open spec fn needs_normalizing(item: Json) -> bool {
    item.has_str("type"@, "custom_tool_call"@) || item.has_str("type"@, "custom_tool_call_output"@)
        || is_orphan_output(item)
}

proof fn lemma_kinds_differ()
    ensures
        "function_call"@ != "custom_tool_call"@,
        "function_call"@ != "custom_tool_call_output"@,
        "function_call"@ != "function_call_output"@,
        "function_call_output"@ != "custom_tool_call"@,
        "function_call_output"@ != "custom_tool_call_output"@,
        "message"@ != "custom_tool_call"@,
        "message"@ != "custom_tool_call_output"@,
        "message"@ != "function_call_output"@,
        "type"@ != "call_id"@,
        "type"@ != "name"@,
        "type"@ != "arguments"@,
        "type"@ != "role"@,
        "type"@ != "content"@,
{
    reveal_strlit("function_call");
    reveal_strlit("custom_tool_call");
    reveal_strlit("custom_tool_call_output");
    reveal_strlit("function_call_output");
    reveal_strlit("message");
    reveal_strlit("type");
    reveal_strlit("call_id");
    reveal_strlit("name");
    reveal_strlit("arguments");
    reveal_strlit("role");
    reveal_strlit("content");
    assert("function_call"@.len() == 13);
    assert("custom_tool_call"@.len() == 16);
    assert("custom_tool_call_output"@.len() == 23);
    assert("function_call_output"@.len() == 20);
    assert("message"@.len() == 7);
    assert("type"@.len() == 4);
    assert("call_id"@.len() == 7);
    assert("arguments"@.len() == 9);
    assert("content"@.len() == 7);
    assert("type"@[0] == 't' && "name"@[0] == 'n' && "role"@[0] == 'r');
}

/// Normalizing changes exactly the items that need it.
pub proof fn normalizing_changes_what_needs_it(item: Json)
    ensures
        normalized_item(item) != item <==> needs_normalizing(item),
{
    lemma_kinds_differ();
    if needs_normalizing(item) {
        let kind = normalized_item(item).str_at("type"@);
        assert(item is Object);
        if item.has_str("type"@, "custom_tool_call"@) {
            assert(kind == Some("function_call"@));
        } else if item.has_str("type"@, "custom_tool_call_output"@) {
            assert(kind == Some("function_call_output"@));
        } else {
            assert(kind == Some("message"@));
        }
    }
}

/// What comes out of normalizing needs no normalizing, except that the output
/// of a custom tool that names no call becomes an output that belongs to none.
pub proof fn normalizing_again_changes_nothing(item: Json)
    requires
        item.has_str("type"@, "custom_tool_call_output"@) ==> item.str_or("call_id"@, ""@).len() > 0,
    ensures
        normalized_item(normalized_item(item)) == normalized_item(item),
{
    lemma_kinds_differ();
    let once = normalized_item(item);
    if needs_normalizing(item) {
        assert(item is Object);
        if item.has_str("type"@, "custom_tool_call"@) {
            assert(once.str_at("type"@) == Some("function_call"@));
        } else if item.has_str("type"@, "custom_tool_call_output"@) {
            assert(once.str_at("type"@) == Some("function_call_output"@));
            assert(once.get("call_id"@) == item.get("call_id"@));
        } else {
            assert(once.str_at("type"@) == Some("message"@));
        }
        normalizing_changes_what_needs_it(once);
    }
}

/// Whether an item is a tool output that belongs to no call.
pub fn item_is_orphan_output(item: &JsonValue) -> (r: bool)
    ensures
        r == is_orphan_output(item@),
{
    item.has_str("type", "function_call_output") && item.str_or("call_id", "").is_empty()
}

/// A function call item.
pub fn function_call_item_value(call_id: JsonValue, name: &str, arguments: String) -> (r: JsonValue)
    ensures
        r@ == function_call_item(call_id@, name@, arguments@),
{
    let mut m = JsonMap::new();
    m.insert("type".to_owned(), JsonValue::text("function_call"));
    m.insert("call_id".to_owned(), call_id);
    m.insert("name".to_owned(), JsonValue::text(name));
    m.insert("arguments".to_owned(), JsonValue::String(arguments));
    JsonValue::Object(m)
}

fn custom_call_as_function_call(item: &JsonValue) -> (r: JsonValue)
    ensures
        r@ == custom_as_function_call(item@),
{
    let name = item.str_or("name", "tool");
    let input = match item.get("input") {
        Some(input) => input.clone(),
        None => JsonValue::text(""),
    };
    let call_id = match item.get("call_id") {
        Some(id) => id.clone(),
        None => JsonValue::Null,
    };
    let arguments = custom_arguments(custom_argument_field(name), input);
    function_call_item_value(call_id, name, arguments)
}

/// A developer message item about the output of a tool.
pub fn output_message_item_value(label: &str, output: &str) -> (r: JsonValue)
    ensures
        r@ == output_message_item(label@, output@),
{
    let mut content = joined("[", label);
    content.append(" output]\n");
    content.append(output);
    let mut m = JsonMap::new();
    m.insert("type".to_owned(), JsonValue::text("message"));
    m.insert("role".to_owned(), JsonValue::text("developer"));
    m.insert("content".to_owned(), JsonValue::String(content));
    JsonValue::Object(m)
}

fn orphan_output_as_message(item: &JsonValue) -> (r: JsonValue)
    ensures
        r@ == orphan_as_message(item@),
{
    let name = item.str_or("name", "tool");
    let namespace = item.str_or("namespace", "");
    let label = if namespace.is_empty() {
        name.to_owned()
    } else {
        joined(joined(namespace, "/").as_str(), name)
    };
    let output = response_output_text(item.get("output"));
    output_message_item_value(label.as_str(), output.as_str())
}

/// The form of an input item that a strict endpoint takes.
pub fn normalize_opencode_go_input_item(item: &JsonValue) -> (r: JsonValue)
    ensures
        r@ == normalized_item(item@),
{
    let m = match item.as_object() {
        Some(m) => m,
        None => {
            return item.clone();
        },
    };
    if item.has_str("type", "custom_tool_call") {
        return custom_call_as_function_call(item);
    }
    if item.has_str("type", "custom_tool_call_output") {
        let mut m = m.clone();
        m.insert("type".to_owned(), JsonValue::text("function_call_output"));
        return JsonValue::Object(m);
    }
    if item_is_orphan_output(item) {
        return orphan_output_as_message(item);
    }
    item.clone()
}

} // verus!
