//! The literals of the two protocols, apart from each other.
use vstd::prelude::*;

verus! {

/// The length and the first two characters of each literal. They tell the
/// literals apart.
pub(crate) proof fn lemma_literals()
    ensures
        "$ref"@.len() == 4 && "$ref"@[0] == '$' && "$ref"@[1] == 'r',
        "input_text"@.len() == 10 && "input_text"@[0] == 'i' && "input_text"@[1] == 'n',
        "output_text"@.len() == 11 && "output_text"@[0] == 'o' && "output_text"@[1] == 'u',
        "image_url"@.len() == 9 && "image_url"@[0] == 'i' && "image_url"@[1] == 'm',
        "input_image"@.len() == 11 && "input_image"@[0] == 'i' && "input_image"@[1] == 'n',
        "text"@.len() == 4 && "text"@[0] == 't' && "text"@[1] == 'e',
        "type"@.len() == 4 && "type"@[0] == 't' && "type"@[1] == 'y',
        "name"@.len() == 4 && "name"@[0] == 'n' && "name"@[1] == 'a',
        "none"@.len() == 4 && "none"@[0] == 'n' && "none"@[1] == 'o',
        "null"@.len() == 4 && "null"@[0] == 'n' && "null"@[1] == 'u',
        "tool"@.len() == 4 && "tool"@[0] == 't' && "tool"@[1] == 'o',
        "tools"@.len() == 5 && "tools"@[0] == 't' && "tools"@[1] == 'o',
        "role"@.len() == 4 && "role"@[0] == 'r' && "role"@[1] == 'o',
        "content"@.len() == 7 && "content"@[0] == 'c' && "content"@[1] == 'o',
        "call_id"@.len() == 7 && "call_id"@[0] == 'c' && "call_id"@[1] == 'a',
        "id"@.len() == 2 && "id"@[0] == 'i' && "id"@[1] == 'd',
        "input"@.len() == 5 && "input"@[0] == 'i' && "input"@[1] == 'n',
        "output"@.len() == 6 && "output"@[0] == 'o' && "output"@[1] == 'u',
        "arguments"@.len() == 9 && "arguments"@[0] == 'a' && "arguments"@[1] == 'r',
        "status"@.len() == 6 && "status"@[0] == 's' && "status"@[1] == 't',
        "namespace"@.len() == 9 && "namespace"@[0] == 'n' && "namespace"@[1] == 'a',
        "function"@.len() == 8 && "function"@[0] == 'f' && "function"@[1] == 'u',
        "custom"@.len() == 6 && "custom"@[0] == 'c' && "custom"@[1] == 'u',
        "custom_tool_call"@.len() == 16 && "custom_tool_call"@[0] == 'c' && "custom_tool_call"@[1] == 'u',
        "custom_tool_call_output"@.len() == 23 && "custom_tool_call_output"@[0] == 'c' && "custom_tool_call_output"@[1] == 'u',
        "function_call"@.len() == 13 && "function_call"@[0] == 'f' && "function_call"@[1] == 'u',
        "function_call_output"@.len() == 20 && "function_call_output"@[0] == 'f' && "function_call_output"@[1] == 'u',
        "message"@.len() == 7 && "message"@[0] == 'm' && "message"@[1] == 'e',
        "agent_message"@.len() == 13 && "agent_message"@[0] == 'a' && "agent_message"@[1] == 'g',
        "reasoning"@.len() == 9 && "reasoning"@[0] == 'r' && "reasoning"@[1] == 'e',
        "assistant"@.len() == 9 && "assistant"@[0] == 'a' && "assistant"@[1] == 's',
        "developer"@.len() == 9 && "developer"@[0] == 'd' && "developer"@[1] == 'e',
        "system"@.len() == 6 && "system"@[0] == 's' && "system"@[1] == 'y',
        "user"@.len() == 4 && "user"@[0] == 'u' && "user"@[1] == 's',
        "properties"@.len() == 10 && "properties"@[0] == 'p' && "properties"@[1] == 'r',
        "required"@.len() == 8 && "required"@[0] == 'r' && "required"@[1] == 'e',
        "parameters"@.len() == 10 && "parameters"@[0] == 'p' && "parameters"@[1] == 'a',
        "description"@.len() == 11 && "description"@[0] == 'd' && "description"@[1] == 'e',
        "object"@.len() == 6 && "object"@[0] == 'o' && "object"@[1] == 'b',
        "string"@.len() == 6 && "string"@[0] == 's' && "string"@[1] == 't',
        "additionalProperties"@.len() == 20 && "additionalProperties"@[0] == 'a' && "additionalProperties"@[1] == 'd',
        "patch"@.len() == 5 && "patch"@[0] == 'p' && "patch"@[1] == 'a',
        "apply_patch"@.len() == 11 && "apply_patch"@[0] == 'a' && "apply_patch"@[1] == 'p',
        "format"@.len() == 6 && "format"@[0] == 'f' && "format"@[1] == 'o',
        "input_format"@.len() == 12 && "input_format"@[0] == 'i' && "input_format"@[1] == 'n',
        "search_content_types"@.len() == 20 && "search_content_types"@[0] == 's' && "search_content_types"@[1] == 'e',
        "web_search_preview"@.len() == 18 && "web_search_preview"@[0] == 'w' && "web_search_preview"@[1] == 'e',
        "effort"@.len() == 6 && "effort"@[0] == 'e' && "effort"@[1] == 'f',
        "encrypted_function_args"@.len() == 23 && "encrypted_function_args"@[0] == 'e' && "encrypted_function_args"@[1] == 'n',
        "summary"@.len() == 7 && "summary"@[0] == 's' && "summary"@[1] == 'u',
        "summary_text"@.len() == 12 && "summary_text"@[0] == 's' && "summary_text"@[1] == 'u',
        "completed"@.len() == 9 && "completed"@[0] == 'c' && "completed"@[1] == 'o',
        "url"@.len() == 3 && "url"@[0] == 'u' && "url"@[1] == 'r',
        "enabled"@.len() == 7 && "enabled"@[0] == 'e' && "enabled"@[1] == 'n',
        "response"@.len() == 8 && "response"@[0] == 'r' && "response"@[1] == 'e',
        "collaboration"@.len() == 13 && "collaboration"@[0] == 'c' && "collaboration"@[1] == 'o',
        "spawn_agent"@.len() == 11 && "spawn_agent"@[0] == 's' && "spawn_agent"@[1] == 'p',
        "send_message"@.len() == 12 && "send_message"@[0] == 's' && "send_message"@[1] == 'e',
        "followup_task"@.len() == 13 && "followup_task"@[0] == 'f' && "followup_task"@[1] == 'o',
        "reasoning_content"@.len() == 17 && "reasoning_content"@[0] == 'r' && "reasoning_content"@[1] == 'e',
        "tool_calls"@.len() == 10 && "tool_calls"@[0] == 't' && "tool_calls"@[1] == 'o',
        "tool_call_id"@.len() == 12 && "tool_call_id"@[0] == 't' && "tool_call_id"@[1] == 'o',
{
    reveal_strlit("$ref");
    reveal_strlit("input_text");
    reveal_strlit("output_text");
    reveal_strlit("image_url");
    reveal_strlit("input_image");
    reveal_strlit("text");
    reveal_strlit("type");
    reveal_strlit("name");
    reveal_strlit("none");
    reveal_strlit("null");
    reveal_strlit("tool");
    reveal_strlit("tools");
    reveal_strlit("role");
    reveal_strlit("content");
    reveal_strlit("call_id");
    reveal_strlit("id");
    reveal_strlit("input");
    reveal_strlit("output");
    reveal_strlit("arguments");
    reveal_strlit("status");
    reveal_strlit("namespace");
    reveal_strlit("function");
    reveal_strlit("custom");
    reveal_strlit("custom_tool_call");
    reveal_strlit("custom_tool_call_output");
    reveal_strlit("function_call");
    reveal_strlit("function_call_output");
    reveal_strlit("message");
    reveal_strlit("agent_message");
    reveal_strlit("reasoning");
    reveal_strlit("assistant");
    reveal_strlit("developer");
    reveal_strlit("system");
    reveal_strlit("user");
    reveal_strlit("properties");
    reveal_strlit("required");
    reveal_strlit("parameters");
    reveal_strlit("description");
    reveal_strlit("object");
    reveal_strlit("string");
    reveal_strlit("additionalProperties");
    reveal_strlit("patch");
    reveal_strlit("apply_patch");
    reveal_strlit("format");
    reveal_strlit("input_format");
    reveal_strlit("search_content_types");
    reveal_strlit("web_search_preview");
    reveal_strlit("effort");
    reveal_strlit("encrypted_function_args");
    reveal_strlit("summary");
    reveal_strlit("summary_text");
    reveal_strlit("completed");
    reveal_strlit("url");
    reveal_strlit("enabled");
    reveal_strlit("response");
    reveal_strlit("collaboration");
    reveal_strlit("spawn_agent");
    reveal_strlit("send_message");
    reveal_strlit("followup_task");
    reveal_strlit("reasoning_content");
    reveal_strlit("tool_calls");
    reveal_strlit("tool_call_id");
}

} // verus!
