use codex_relay::calls::{complete_message_tool_arguments, completed_tool_arguments};
use codex_relay::content::{
    drop_contentless_messages, is_content_value_contentless, value_to_chat_content,
};
use codex_relay::env::{map_model_name, RelayEnv};
use codex_relay::json::JsonValue;
use codex_relay::request::{to_chat_request, to_chat_request_with_options, TranslateOptions};
use codex_relay::session::SessionStore;
use codex_relay::text::{is_blank, trim};
use codex_relay::types::{
    ChatMessage, ChatRequest, ResponsesInput, ResponsesReasoning, ResponsesRequest,
};
use serde_json::Value;

fn json(text: &str) -> JsonValue {
    JsonValue::parse(text).unwrap()
}

fn value(text: &str) -> Value {
    serde_json::from_str(text).unwrap()
}

fn items(texts: &[&str]) -> ResponsesInput {
    ResponsesInput::Messages(texts.iter().map(|text| json(text)).collect())
}

fn base_req(input: ResponsesInput) -> ResponsesRequest {
    ResponsesRequest {
        model: "test".into(),
        input,
        previous_response_id: None,
        tools: vec![],
        stream: false,
        temperature: None,
        max_output_tokens: None,
        system: None,
        instructions: None,
        reasoning: None,
    }
}

fn message(role: &str, content: Option<JsonValue>) -> ChatMessage {
    ChatMessage {
        role: role.into(),
        content,
        reasoning_content: None,
        tool_calls: None,
        tool_call_id: None,
        name: None,
    }
}

fn text(s: &str) -> Option<JsonValue> {
    Some(JsonValue::String(s.into()))
}

fn calling(call: &str) -> ChatMessage {
    ChatMessage {
        tool_calls: Some(vec![json(call)]),
        ..message("assistant", None)
    }
}

fn translate(req: &ResponsesRequest, history: Vec<ChatMessage>) -> ChatRequest {
    to_chat_request(req, history, &SessionStore::new(), &RelayEnv::default())
}

fn calls(message: &ChatMessage) -> Vec<Value> {
    message
        .tool_calls
        .as_ref()
        .unwrap()
        .iter()
        .map(JsonValue::to_json)
        .collect()
}

fn content(message: &ChatMessage) -> Option<Value> {
    message.content.as_ref().map(JsonValue::to_json)
}

fn roles(chat: &ChatRequest) -> Vec<&str> {
    chat.messages.iter().map(|m| m.role.as_str()).collect()
}

#[test]
fn test_reasoning_effort_is_forwarded_verbatim() {
    let mut req = base_req(ResponsesInput::Text("hello".into()));
    req.reasoning = Some(ResponsesReasoning {
        effort: Some("xhigh".into()),
    });
    let chat = translate(&req, vec![]);
    assert_eq!(chat.reasoning_effort.as_deref(), Some("xhigh"));
}

#[test]
fn test_absent_reasoning_omits_the_field() {
    let req = base_req(ResponsesInput::Text("hello".into()));
    let chat = translate(&req, vec![]);
    assert!(chat.reasoning_effort.is_none());
}

#[test]
fn test_reasoning_without_effort_forwards_nothing() {
    let mut req = base_req(ResponsesInput::Text("hello".into()));
    req.reasoning = Some(ResponsesReasoning { effort: None });
    let chat = translate(&req, vec![]);
    assert!(chat.reasoning_effort.is_none());
}

#[test]
fn test_text_input_becomes_user_message() {
    let req = base_req(ResponsesInput::Text("hello".into()));
    let chat = translate(&req, vec![]);
    assert_eq!(chat.messages.len(), 1);
    assert_eq!(chat.messages[0].role, "user");
    assert_eq!(chat.messages[0].text_content(), "hello");
}

#[test]
fn test_blank_user_message_in_history_is_dropped() {
    let req = base_req(items(&[
        r#"{"type": "message", "role": "user", "content": "first"}"#,
        r#"{"type": "message", "role": "user", "content": [{"type": "input_text", "text": ""}]}"#,
        r#"{"type": "message", "role": "user", "content": "second"}"#,
    ]));
    let chat = translate(&req, vec![]);
    let texts: Vec<&str> = chat.messages.iter().map(|m| m.text_content()).collect();
    assert_eq!(texts, vec!["first", "second"]);
}

#[test]
fn test_whitespace_only_user_message_is_dropped() {
    let req = base_req(items(&[
        r#"{"type": "message", "role": "user", "content": "   \n "}"#,
        r#"{"type": "message", "role": "user", "content": "real"}"#,
    ]));
    let chat = translate(&req, vec![]);
    assert_eq!(chat.messages.len(), 1);
    assert_eq!(chat.messages[0].text_content(), "real");
}

#[test]
fn test_null_user_message_is_dropped() {
    let req = base_req(items(&[
        r#"{"type": "message", "role": "user", "content": null}"#,
        r#"{"type": "message", "role": "user", "content": "real"}"#,
    ]));
    let chat = translate(&req, vec![]);
    assert_eq!(chat.messages.len(), 1);
    assert_eq!(chat.messages[0].text_content(), "real");
}

#[test]
fn test_image_only_message_is_kept() {
    let req = base_req(items(&[r#"{
        "type": "message",
        "role": "user",
        "content": [
            {"type": "input_text", "text": ""},
            {"type": "input_image", "image_url": "data:image/png;base64,AAA"}
        ]
    }"#]));
    let chat = translate(&req, vec![]);
    assert_eq!(chat.messages.len(), 1);
    assert!(content(&chat.messages[0]).unwrap().is_array());
}

#[test]
fn test_assistant_message_with_tool_calls_and_no_content_is_kept() {
    let mut messages = vec![
        calling(r#"{"id": "c1"}"#),
        ChatMessage {
            tool_call_id: Some("c1".into()),
            ..message("tool", text(""))
        },
    ];
    drop_contentless_messages(&mut messages);
    assert_eq!(messages.len(), 2);
}

#[test]
fn test_never_empties_the_message_array() {
    let mut messages = vec![message("user", text(""))];
    drop_contentless_messages(&mut messages);
    assert_eq!(messages.len(), 1);
}

#[test]
fn test_all_blank_messages_keep_only_the_newest() {
    let mut messages: Vec<ChatMessage> = ["first", "second", "newest"]
        .into_iter()
        .map(|name| ChatMessage {
            name: Some(name.into()),
            ..message("user", text(if name == "newest" { "\n" } else { "" }))
        })
        .collect();
    drop_contentless_messages(&mut messages);
    assert_eq!(messages.len(), 1);
    assert_eq!(messages[0].name.as_deref(), Some("newest"));
}

#[test]
fn test_system_prompt_from_instructions() {
    let mut req = base_req(ResponsesInput::Text("hi".into()));
    req.instructions = Some("be helpful".into());
    let chat = translate(&req, vec![]);
    assert_eq!(chat.messages[0].role, "system");
    assert_eq!(chat.messages[0].text_content(), "be helpful");
}

#[test]
fn test_blank_developer_input_does_not_replace_instructions() {
    let mut req = base_req(items(&[
        r#"{"type": "message", "role": "developer", "content": "  "}"#,
        r#"{"type": "message", "role": "user", "content": "hi"}"#,
    ]));
    req.instructions = Some("be helpful".into());
    let chat = translate(&req, vec![]);
    assert_eq!(chat.messages[0].role, "system");
    assert_eq!(chat.messages[0].text_content(), "be helpful");
}

#[test]
fn test_only_blank_developer_input_is_kept_as_fallback() {
    let req = base_req(items(&[
        r#"{"type": "message", "role": "developer", "content": " \n "}"#,
    ]));
    let chat = translate(&req, vec![]);
    assert_eq!(chat.messages.len(), 1);
    assert_eq!(chat.messages[0].role, "system");
    assert_eq!(content(&chat.messages[0]), Some(Value::from(" \n ")));
}

#[test]
fn test_newer_blank_input_wins_over_blank_history_fallback() {
    let history = vec![message("user", text(" \t"))];
    let req = base_req(items(&[
        r#"{"type": "message", "role": "developer", "content": " \n "}"#,
    ]));
    let chat = translate(&req, history);
    assert_eq!(chat.messages.len(), 1);
    assert_eq!(chat.messages[0].role, "system");
    assert_eq!(content(&chat.messages[0]), Some(Value::from(" \n ")));
}

#[test]
fn test_empty_input_still_produces_one_message() {
    let req = base_req(ResponsesInput::Messages(vec![]));
    let chat = translate(&req, vec![]);
    assert_eq!(chat.messages.len(), 1);
    assert_eq!(chat.messages[0].role, "user");
}

#[test]
fn test_blank_history_system_does_not_suppress_instructions() {
    let mut req = base_req(ResponsesInput::Text("hi".into()));
    req.instructions = Some("current instructions".into());
    let history = vec![message("system", text(""))];
    let chat = translate(&req, history);
    assert_eq!(chat.messages[0].text_content(), "current instructions");
}

#[test]
fn test_blank_instructions_fall_back_to_system() {
    let mut req = base_req(ResponsesInput::Text("hi".into()));
    req.instructions = Some(" \n".into());
    req.system = Some("system fallback".into());
    let chat = translate(&req, vec![]);
    assert_eq!(chat.messages[0].text_content(), "system fallback");
}

#[test]
fn test_developer_role_mapped_to_system() {
    let req = base_req(items(&[
        r#"{"type": "message", "role": "developer", "content": "secret instructions"}"#,
    ]));
    let chat = translate(&req, vec![]);
    assert_eq!(chat.messages[0].role, "system");
    assert_eq!(chat.messages[0].text_content(), "secret instructions");
}

#[test]
fn test_function_call_grouping() {
    let req = base_req(items(&[
        r#"{"type": "function_call", "call_id": "c1", "name": "fn_a", "arguments": "{}"}"#,
        r#"{"type": "function_call", "call_id": "c2", "name": "fn_b", "arguments": "{}"}"#,
    ]));
    let chat = translate(&req, vec![]);
    assert_eq!(chat.messages.len(), 1);
    assert_eq!(chat.messages[0].role, "assistant");
    let calls = calls(&chat.messages[0]);
    assert_eq!(calls.len(), 2);
    assert_eq!(calls[0]["id"], "c1");
    assert_eq!(calls[1]["id"], "c2");
}

#[test]
fn test_blank_messages_do_not_split_parallel_tool_calls() {
    let req = base_req(items(&[
        r#"{"type": "function_call", "call_id": "c1", "name": "fn_a", "arguments": "{}"}"#,
        r#"{"type": "message", "role": "user", "content": ""}"#,
        r#"{"type": "message", "role": "system", "content": []}"#,
        r#"{"type": "function_call", "call_id": "c2", "name": "fn_b", "arguments": "{}"}"#,
        r#"{"type": "function_call_output", "call_id": "c1", "output": "one"}"#,
        r#"{"type": "function_call_output", "call_id": "c2", "output": "two"}"#,
    ]));
    let chat = translate(&req, vec![]);
    assert_eq!(chat.messages.len(), 3);
    let calls = calls(&chat.messages[0]);
    assert_eq!(calls.len(), 2);
    assert_eq!(calls[0]["id"], "c1");
    assert_eq!(calls[1]["id"], "c2");
    assert_eq!(chat.messages[1].tool_call_id.as_deref(), Some("c1"));
    assert_eq!(chat.messages[2].tool_call_id.as_deref(), Some("c2"));
}

#[test]
fn test_duplicate_tool_call_ids_across_blank_messages_are_skipped() {
    let req = base_req(items(&[
        r#"{"type": "function_call", "call_id": "c1", "name": "first", "arguments": "{}"}"#,
        r#"{"type": "message", "role": "user", "content": ""}"#,
        r#"{"type": "function_call", "call_id": "c1", "name": "duplicate", "arguments": "{}"}"#,
        r#"{"type": "function_call_output", "call_id": "c1", "output": "one"}"#,
        r#"{"type": "function_call_output", "call_id": "c1", "output": "duplicate output"}"#,
    ]));
    let chat = translate(&req, vec![]);
    assert_eq!(chat.messages.len(), 2);
    let calls = calls(&chat.messages[0]);
    assert_eq!(calls.len(), 1);
    assert_eq!(calls[0]["function"]["name"], "first");
    assert_eq!(chat.messages[1].text_content(), "one");
}

#[test]
fn test_duplicate_tool_call_in_later_group_does_not_create_empty_assistant() {
    let req = base_req(items(&[
        r#"{"type": "function_call", "call_id": "c1", "name": "first", "arguments": "{}"}"#,
        r#"{"type": "message", "role": "developer", "content": "rules"}"#,
        r#"{"type": "function_call", "call_id": "c1", "name": "duplicate", "arguments": "{}"}"#,
        r#"{"type": "function_call_output", "call_id": "c1", "output": "done"}"#,
    ]));
    let chat = translate(&req, vec![]);
    assert_eq!(roles(&chat), ["system", "assistant", "tool"]);
    assert_eq!(chat.messages[1].tool_calls.as_ref().unwrap().len(), 1);
    assert!(chat
        .messages
        .iter()
        .all(|msg| msg.tool_calls.as_ref().map_or(true, |calls| !calls.is_empty())));
}

#[test]
fn test_custom_tool_call_and_output_replay_as_chat_messages() {
    let patch = "*** Begin Patch\n*** End Patch";
    let req = base_req(items(&[
        r#"{
            "type": "custom_tool_call",
            "call_id": "call_patch",
            "name": "apply_patch",
            "input": "*** Begin Patch\n*** End Patch"
        }"#,
        r#"{"type": "custom_tool_call_output", "call_id": "call_patch", "output": "Done!"}"#,
    ]));

    let chat = translate(&req, vec![]);
    assert_eq!(chat.messages.len(), 2);
    let call = &calls(&chat.messages[0])[0];
    assert_eq!(call["function"]["name"], "apply_patch");
    let arguments = value(call["function"]["arguments"].as_str().unwrap());
    assert_eq!(arguments.as_object().unwrap().len(), 1);
    assert_eq!(arguments["patch"], patch);
    assert_eq!(chat.messages[1].role, "tool");
    assert_eq!(chat.messages[1].tool_call_id.as_deref(), Some("call_patch"));
    assert_eq!(chat.messages[1].text_content(), "Done!");
}

#[test]
fn test_namespaced_function_call_replays_to_flattened_chat_name() {
    let req = base_req(items(&[r#"{
        "type": "function_call",
        "call_id": "call_status",
        "namespace": "mcp__node_repl",
        "name": "status",
        "arguments": "{}"
    }"#]));
    let chat = translate(&req, vec![]);
    assert_eq!(
        calls(&chat.messages[0])[0]["function"]["name"].as_str(),
        Some("mcp__node_repl-status")
    );
}

#[test]
fn test_function_call_output_becomes_tool_message() {
    let req = base_req(items(&[
        r#"{"type": "function_call_output", "call_id": "c1", "output": "result"}"#,
    ]));
    let chat = translate(&req, vec![]);
    assert_eq!(chat.messages[0].role, "tool");
    assert_eq!(chat.messages[0].text_content(), "result");
    assert_eq!(chat.messages[0].tool_call_id.as_deref(), Some("c1"));
}

#[test]
fn test_non_string_function_call_output_is_not_lost() {
    let req = base_req(items(&[
        r#"{"type": "function_call_output", "call_id": "c1", "output": {"ok": true, "count": 2}}"#,
    ]));
    let chat = translate(&req, vec![]);
    assert_eq!(chat.messages[0].text_content(), r#"{"count":2,"ok":true}"#);
}

#[test]
fn test_empty_completed_tool_arguments_become_json_object() {
    assert_eq!(completed_tool_arguments(""), "{}");
    assert_eq!(completed_tool_arguments(" \n\t"), "{}");
    assert_eq!(completed_tool_arguments("{malformed"), "{malformed");
}

#[test]
fn test_non_string_tool_arguments_are_not_silently_rewritten() {
    let mut message = calling(
        r#"{
            "id": "call_bad",
            "type": "function",
            "function": {"name": "bad", "arguments": {"unexpected": true}}
        }"#,
    );

    complete_message_tool_arguments(&mut message);
    assert_eq!(
        calls(&message)[0]["function"]["arguments"],
        value(r#"{"unexpected": true}"#)
    );
}

#[test]
fn test_empty_function_call_arguments_are_repaired_during_replay() {
    let req = base_req(items(&[
        r#"{"type": "function_call", "call_id": "call_empty", "name": "no_args", "arguments": ""}"#,
    ]));

    let chat = translate(&req, vec![]);
    assert_eq!(calls(&chat.messages[0])[0]["function"]["arguments"], "{}");
}

#[test]
fn test_empty_arguments_in_retained_history_are_repaired_before_duplicate_input() {
    let history = vec![calling(
        r#"{
            "id": "call_old",
            "type": "function",
            "function": {"name": "no_args", "arguments": ""}
        }"#,
    )];
    let req = base_req(items(&[
        r#"{"type": "function_call", "call_id": "call_old", "name": "no_args", "arguments": ""}"#,
    ]));

    let chat = translate(&req, history);
    assert_eq!(
        chat.messages.len(),
        1,
        "duplicate input call must be skipped"
    );
    assert_eq!(calls(&chat.messages[0])[0]["function"]["arguments"], "{}");
}

#[test]
fn test_to_chat_request_honors_tool_denylist_env() {
    let env = RelayEnv {
        tool_denylist: Some("spawn_agent, wait_agent".into()),
        ..RelayEnv::default()
    };
    let mut req = base_req(ResponsesInput::Text("hello".into()));
    req.tools = vec![
        json(r#"{"type": "function", "name": "spawn_agent"}"#),
        json(r#"{"type": "function", "name": "exec_command"}"#),
        json(r#"{"type": "function", "name": "wait_agent"}"#),
    ];

    let chat = to_chat_request(&req, vec![], &SessionStore::new(), &env);
    let tools: Vec<Value> = chat.tools.iter().map(JsonValue::to_json).collect();
    let names: Vec<&str> = tools
        .iter()
        .filter_map(|tool| tool["function"]["name"].as_str())
        .collect();

    assert_eq!(names, ["exec_command"]);
}

#[test]
fn test_value_to_text_string() {
    let req = base_req(items(&[
        r#"{"type": "message", "role": "user", "content": "plain text"}"#,
    ]));
    let chat = translate(&req, vec![]);
    assert_eq!(chat.messages[0].text_content(), "plain text");
}

#[test]
fn test_input_image_becomes_multimodal_content() {
    let req = base_req(items(&[r#"{"type": "message", "role": "user", "content": [
        {"type": "input_text", "text": "what is this?"},
        {"type": "input_image", "image_url": "data:image/png;base64,AAA"}
    ]}"#]));
    let chat = translate(&req, vec![]);
    let content = content(&chat.messages[0]).unwrap();
    let parts = content
        .as_array()
        .expect("content must be a parts array when an image is present");
    assert_eq!(parts.len(), 2);
    assert_eq!(parts[0]["type"], "text");
    assert_eq!(parts[0]["text"], "what is this?");
    assert_eq!(parts[1]["type"], "image_url");
    assert_eq!(parts[1]["image_url"]["url"], "data:image/png;base64,AAA");
}

#[test]
fn test_chat_style_image_url_passes_through() {
    let req = base_req(items(&[r#"{"type": "message", "role": "user", "content": [
        {"type": "image_url", "image_url": {"url": "https://example.com/x.png"}}
    ]}"#]));
    let chat = translate(&req, vec![]);
    let content = content(&chat.messages[0]).unwrap();
    let parts = content.as_array().expect("multimodal content");
    assert_eq!(parts[0]["type"], "image_url");
    assert_eq!(parts[0]["image_url"]["url"], "https://example.com/x.png");
}

#[test]
fn test_text_only_parts_collapse_to_string() {
    let req = base_req(items(&[r#"{"type": "message", "role": "user", "content": [
        {"type": "input_text", "text": "hi"}
    ]}"#]));
    let chat = translate(&req, vec![]);
    assert!(content(&chat.messages[0]).unwrap().is_string());
    assert_eq!(chat.messages[0].text_content(), "hi");
}

#[test]
fn test_agent_message_plaintext_input_reaches_chat_upstream() {
    let req = base_req(items(&[r#"{
        "type": "agent_message",
        "author": "agent-a",
        "recipient": "agent-b",
        "content": [
            {"type": "input_text", "text": "do the task"}
        ]
    }"#]));
    let chat = translate(&req, vec![]);
    assert!(content(&chat.messages[0]).unwrap().is_string());
    assert_eq!(chat.messages[0].text_content(), "do the task");
}

#[test]
fn test_value_to_text_parts_array() {
    let req = base_req(items(&[r#"{"type": "message", "role": "user", "content": [
        {"type": "input_text", "text": "hello "},
        {"type": "input_text", "text": "world"}
    ]}"#]));
    let chat = translate(&req, vec![]);
    assert_eq!(chat.messages[0].text_content(), "hello world");
}

#[test]
fn test_skip_duplicate_function_call_from_history() {
    let history = vec![
        message("user", text("run command")),
        calling(
            r#"{
                "id": "call_1",
                "type": "function",
                "function": {"name": "exec", "arguments": "{\"cmd\":\"ls\"}"}
            }"#,
        ),
    ];
    let req = base_req(items(&[
        r#"{"type": "function_call", "call_id": "call_1", "name": "exec", "arguments": "{\"cmd\":\"ls\"}"}"#,
        r#"{"type": "function_call_output", "call_id": "call_1", "output": "file.txt"}"#,
        r#"{"type": "message", "role": "user", "content": "next"}"#,
    ]));

    let chat = translate(&req, history);
    assert_eq!(
        chat.messages.len(),
        4,
        "should not duplicate assistant tool_calls message"
    );
    assert_eq!(chat.messages[0].role, "user");
    assert_eq!(chat.messages[1].role, "assistant");
    assert!(chat.messages[1].tool_calls.is_some());
    assert_eq!(chat.messages[1].tool_calls.as_ref().unwrap().len(), 1);
    assert_eq!(chat.messages[2].role, "tool");
    assert_eq!(chat.messages[2].tool_call_id.as_deref(), Some("call_1"));
    assert_eq!(chat.messages[3].role, "user");
}

#[test]
fn test_skip_duplicate_function_call_output_from_history() {
    let history = vec![
        message("user", text("run")),
        calling(
            r#"{
                "id": "call_x",
                "type": "function",
                "function": {"name": "ls", "arguments": "{}"}
            }"#,
        ),
        ChatMessage {
            tool_call_id: Some("call_x".into()),
            ..message("tool", text("output"))
        },
    ];
    let req = base_req(items(&[
        r#"{"type": "function_call_output", "call_id": "call_x", "output": "output"}"#,
        r#"{"type": "message", "role": "user", "content": "next"}"#,
    ]));

    let chat = translate(&req, history);
    assert_eq!(chat.messages.len(), 4);
    assert_eq!(chat.messages[2].role, "tool");
    assert_eq!(chat.messages[3].role, "user");
}

#[test]
fn test_system_message_between_tool_calls_moved_to_front() {
    let req = base_req(items(&[
        r#"{"type": "function_call", "call_id": "c1", "name": "exec", "arguments": "{}"}"#,
        r#"{"type": "message", "role": "developer", "content": "be careful"}"#,
        r#"{"type": "function_call_output", "call_id": "c1", "output": "done"}"#,
        r#"{"type": "message", "role": "user", "content": "next turn"}"#,
    ]));
    let chat = translate(&req, vec![]);
    assert_eq!(
        roles(&chat),
        ["system", "assistant", "tool", "user"],
        "system must be at front, assistant→tool pairing must be contiguous"
    );
}

#[test]
fn test_system_message_at_start_of_input() {
    let req = base_req(items(&[
        r#"{"type": "message", "role": "developer", "content": "rules"}"#,
        r#"{"type": "message", "role": "user", "content": "hello"}"#,
    ]));
    let chat = translate(&req, vec![]);
    assert_eq!(chat.messages[0].role, "system");
    assert_eq!(chat.messages[0].text_content(), "rules");
    assert_eq!(chat.messages[1].role, "user");
}

#[test]
fn test_system_from_input_replaces_instructions() {
    let mut req = base_req(items(&[
        r#"{"type": "message", "role": "user", "content": "hi"}"#,
        r#"{"type": "message", "role": "developer", "content": "override"}"#,
    ]));
    req.instructions = Some("original".into());
    let chat = translate(&req, vec![]);
    assert_eq!(chat.messages[0].role, "system");
    assert_eq!(chat.messages[0].text_content(), "override");
}

fn mapping(map: Option<&str>) -> RelayEnv {
    RelayEnv {
        model_map: map.map(String::from),
        ..RelayEnv::default()
    }
}

#[test]
fn test_map_model_name_with_env() {
    let env = mapping(Some("gpt-5.4:deepseek-v4-pro,gpt-5.5:deepseek-v4-pro"));
    assert_eq!(map_model_name("gpt-5.4", &env), "deepseek-v4-pro");
    assert_eq!(map_model_name("gpt-5.5", &env), "deepseek-v4-pro");
}

#[test]
fn test_map_model_name_no_match_passthrough() {
    let env = mapping(Some("gpt-5.4:deepseek-v4-pro"));
    assert_eq!(map_model_name("unknown-model", &env), "unknown-model");
}

#[test]
fn test_map_model_name_no_env_var() {
    assert_eq!(map_model_name("gpt-5.4", &mapping(None)), "gpt-5.4");
}

#[test]
fn test_map_model_name_trims_whitespace() {
    let env = mapping(Some(
        " gpt-5.4 : deepseek-v4-pro , gpt-5.5 : deepseek-v4-flash ",
    ));
    assert_eq!(map_model_name("gpt-5.4", &env), "deepseek-v4-pro");
    assert_eq!(map_model_name("gpt-5.5", &env), "deepseek-v4-flash");
}

#[test]
fn first_pair_for_a_model_counts_and_pairs_without_colon_are_skipped() {
    let env = mapping(Some("a,a:b,a:c,d:e:f"));
    assert_eq!(map_model_name("a", &env), "b");
    assert_eq!(map_model_name("d", &env), "e:f");
}

#[test]
fn request_fields_are_carried_over() {
    let env = RelayEnv {
        model_map: Some("glm:glm-4.6".into()),
        glm_models: vec!["glm-4.6".into()],
        ..RelayEnv::default()
    };
    let mut req = base_req(ResponsesInput::Text("hello".into()));
    req.model = "glm".into();
    req.stream = true;
    req.max_output_tokens = Some(512);
    req.temperature = serde_json::Number::from_f64(0.25);
    let chat = to_chat_request(&req, vec![], &SessionStore::new(), &env);
    assert_eq!(chat.model, "glm-4.6");
    assert!(chat.stream);
    assert!(chat.stream_options.unwrap().include_usage);
    assert_eq!(chat.thinking.unwrap().kind, "enabled");
    assert_eq!(chat.max_tokens, Some(512));
    assert_eq!(chat.temperature, serde_json::Number::from_f64(0.25));

    req.stream = false;
    let off = RelayEnv {
        glm_thinking: false,
        ..env
    };
    let chat = to_chat_request(&req, vec![], &SessionStore::new(), &off);
    assert!(chat.stream_options.is_none());
    assert!(chat.thinking.is_none());
}

#[test]
fn reasoning_of_a_call_is_taken_from_the_store() {
    let mut sessions = SessionStore::new();
    sessions.store_reasoning("c2".into(), "because".into());
    let req = base_req(items(&[
        r#"{"type": "function_call", "call_id": "c1", "name": "a", "arguments": "{}"}"#,
        r#"{"type": "function_call", "call_id": "c2", "name": "b", "arguments": "{}"}"#,
    ]));
    let chat = to_chat_request(&req, vec![], &sessions, &RelayEnv::default());
    assert_eq!(chat.messages.len(), 1);
    assert_eq!(
        chat.messages[0].reasoning_content.as_deref(),
        Some("because")
    );
}

#[test]
fn reasoning_of_a_turn_is_taken_from_the_store() {
    let prior = vec![message("user", text("why?"))];
    let answer = message("assistant", text("so"));
    let mut sessions = SessionStore::new();
    sessions.store_turn_reasoning(&prior, &answer, "thought".into());
    assert_eq!(
        sessions.get_turn_reasoning(&prior, &answer).as_deref(),
        Some("thought")
    );
    assert!(sessions.get_turn_reasoning(&vec![], &answer).is_none());

    let req = base_req(items(&[
        r#"{"type": "message", "role": "user", "content": "why?"}"#,
        r#"{"type": "message", "role": "assistant", "content": [{"type": "output_text", "text": "so"}]}"#,
    ]));
    let chat = to_chat_request(&req, vec![], &sessions, &RelayEnv::default());
    assert_eq!(
        chat.messages[1].reasoning_content.as_deref(),
        Some("thought")
    );
}

#[test]
fn reasoning_items_are_left_out_and_part_calls() {
    let req = base_req(items(&[
        r#"{"type": "function_call", "call_id": "c1", "name": "a", "arguments": "{}"}"#,
        r#"{"type": "reasoning", "summary": []}"#,
        r#"{"type": "function_call", "call_id": "c2", "name": "b"}"#,
    ]));
    let chat = translate(&req, vec![]);
    assert_eq!(roles(&chat), ["assistant", "assistant"]);
    assert_eq!(calls(&chat.messages[1])[0]["function"]["arguments"], "{}");
}

#[test]
fn declared_field_carries_the_input_of_a_custom_tool() {
    let mut req = base_req(items(&[
        r#"{"type": "custom_tool_call", "call_id": "c1", "name": "apply_patch", "input": "x"}"#,
        r#"{"type": "custom_tool_call", "call_id": "c2", "name": "exec", "input": "ls"}"#,
    ]));
    req.tools = vec![json(
        r#"{"type": "function", "name": "apply_patch",
            "parameters": {"properties": {"diff": {"type": "string"}}}}"#,
    )];
    let chat = translate(&req, vec![]);
    let calls = calls(&chat.messages[0]);
    assert_eq!(calls[0]["function"]["arguments"], r#"{"diff":"x"}"#);
    assert_eq!(calls[1]["function"]["arguments"], r#"{"input":"ls"}"#);
}

#[test]
fn orphan_output_becomes_a_system_message_in_compatibility_mode() {
    let input = || {
        items(&[
            r#"{"type": "function_call_output", "namespace": "ns", "name": "run", "output": "lost"}"#,
            r#"{"type": "message", "role": "user", "content": "hi"}"#,
        ])
    };
    let options = TranslateOptions {
        opencode_go_compat: true,
    };
    let chat = to_chat_request_with_options(
        &base_req(input()),
        vec![],
        &SessionStore::new(),
        options,
        &RelayEnv::default(),
    );
    assert_eq!(roles(&chat), ["system", "user"]);
    assert_eq!(chat.messages[0].text_content(), "[ns/run output]\nlost");

    let chat = to_chat_request_with_options(
        &base_req(input()),
        vec![],
        &SessionStore::new(),
        TranslateOptions::default(),
        &RelayEnv::default(),
    );
    assert_eq!(roles(&chat), ["tool", "user"]);
    assert_eq!(chat.messages[0].tool_call_id.as_deref(), Some(""));
}

#[test]
fn messages_with_content_of_the_history_are_kept() {
    let history = vec![
        message("user", text("one")),
        message("user", text("  ")),
        message("assistant", None),
    ];
    let chat = translate(&base_req(ResponsesInput::Text("two".into())), history);
    assert_eq!(roles(&chat), ["user", "assistant", "user"]);
    assert_eq!(chat.messages[0].text_content(), "one");
    assert_eq!(chat.messages[2].text_content(), "two");
}

#[test]
fn content_that_is_no_text_is_written_out() {
    let req = base_req(items(&[
        r#"{"type": "message", "role": "user", "content": {"b": 1, "a": [true]}}"#,
        r#"{"type": "message", "role": "user", "content": 7}"#,
    ]));
    let chat = translate(&req, vec![]);
    assert_eq!(chat.messages[0].text_content(), r#"{"a":[true],"b":1}"#);
    assert_eq!(chat.messages[1].text_content(), "7");
}

#[test]
fn unknown_and_flat_image_parts_are_reshaped() {
    let req = base_req(items(&[r#"{"type": "message", "role": "user", "content": [
        {"type": "input_file", "file_id": "f1"},
        {"type": "image_url", "image_url": "https://example.com/y.png"},
        {"type": "image_url"},
        {"type": "output_text"}
    ]}"#]));
    let chat = translate(&req, vec![]);
    assert_eq!(
        content(&chat.messages[0]).unwrap(),
        value(
            r#"[
                {"type": "input_file", "file_id": "f1"},
                {"type": "image_url", "image_url": {"url": "https://example.com/y.png"}},
                {"type": "image_url", "image_url": {"url": ""}},
                {"type": "text", "text": ""}
            ]"#
        )
    );
}

#[test]
fn completing_arguments_twice_changes_nothing_more() {
    for call in [
        r#"{"id": "c", "function": {"name": "f"}}"#,
        r#"{"id": "c", "function": {"name": "f", "arguments": " "}}"#,
        r#"{"id": "c", "function": {"name": "f", "arguments": "{\"a\":1}"}}"#,
        r#"{"id": "c", "function": "f"}"#,
        r#""c""#,
    ] {
        let mut once = calling(call);
        complete_message_tool_arguments(&mut once);
        let mut twice = once.clone();
        complete_message_tool_arguments(&mut twice);
        assert_eq!(calls(&once), calls(&twice));
    }
    let mut missing = calling(r#"{"id": "c", "function": {"name": "f"}}"#);
    complete_message_tool_arguments(&mut missing);
    assert_eq!(calls(&missing)[0]["function"]["arguments"], "{}");
}

#[test]
fn dropping_twice_changes_nothing_more() {
    let mut messages = vec![
        message("user", text("a")),
        message("user", text(" ")),
        message("system", None),
        message("assistant", None),
    ];
    drop_contentless_messages(&mut messages);
    assert_eq!(messages.len(), 2);
    drop_contentless_messages(&mut messages);
    assert_eq!(messages.len(), 2);
    assert_eq!(messages[0].text_content(), "a");
    assert_eq!(messages[1].role, "assistant");
    let mut none: Vec<ChatMessage> = vec![];
    drop_contentless_messages(&mut none);
    assert!(none.is_empty());
}

#[test]
fn translated_content_is_blank_exactly_when_the_content_is() {
    for (content, blank) in [
        ("null", true),
        (r#"" ""#, true),
        (r#""x""#, false),
        ("[]", true),
        (r#"[{"type": "text", "text": " "}, {"type": "input_text"}]"#, true),
        (r#"[{"type": "text", "text": " "}, {"type": "output_text", "text": "x"}]"#, false),
        (r#"[{"type": "text", "text": ""}, {"type": "input_image"}]"#, false),
        (r#"[{"type": "unknown"}]"#, false),
        ("[7]", false),
    ] {
        let content = json(content);
        assert_eq!(is_content_value_contentless(Some(&content)), blank);
        let translated = value_to_chat_content(Some(&content));
        assert_eq!(is_content_value_contentless(translated.as_ref()), blank);
    }
    assert!(is_content_value_contentless(None));
    assert!(!is_content_value_contentless(Some(&json("7"))));
    assert!(!is_content_value_contentless(Some(&json("{}"))));
}

#[test]
fn blank_text_is_trimmed_to_nothing() {
    for s in ["", " ", "\u{2028}\t", "a", " a ", "\u{feff}"] {
        assert_eq!(is_blank(s), trim(s).is_empty());
        assert_eq!(is_blank(s), s.trim().is_empty());
        assert_eq!(trim(s), s.trim());
    }
}

#[test]
fn system_message_of_the_history_stands_in_place_of_instructions() {
    let mut req = base_req(ResponsesInput::Text("hi".into()));
    req.instructions = Some("new".into());
    let history = vec![
        message("system", text("old")),
        message("user", text("before")),
    ];
    let chat = translate(&req, history);
    assert_eq!(roles(&chat), ["system", "user", "user"]);
    assert_eq!(chat.messages[0].text_content(), "old");
}

#[test]
fn answer_to_a_call_of_the_history_is_not_called_again() {
    let history = vec![ChatMessage {
        tool_call_id: Some("c1".into()),
        ..message("tool", text("done"))
    }];
    let req = base_req(items(&[
        r#"{"type": "function_call", "call_id": "c1", "name": "f", "arguments": "{}"}"#,
        r#"{"type": "function_call_output", "call_id": "c2", "output": "other"}"#,
    ]));
    let chat = translate(&req, history);
    assert_eq!(roles(&chat), ["tool", "tool"]);
    assert_eq!(chat.messages[1].tool_call_id.as_deref(), Some("c2"));
}
