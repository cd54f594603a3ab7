use codex_relay::env::RelayEnv;
use codex_relay::json::JsonValue;
use codex_relay::request::to_chat_request;
use codex_relay::response::{
    from_chat_response, from_chat_response_with_ids, from_chat_response_with_tool_map,
    from_chat_response_with_tool_maps,
};
use codex_relay::session::SessionStore;
use codex_relay::tool_names::{
    custom_tool_map, namespace_tool_map, response_function_name_for_chat, CustomToolMap,
    NamespaceToolMap,
};
use codex_relay::types::{
    ChatChoice, ChatMessage, ChatResponse, ChatUsage, ResponsesInput, ResponsesRequest,
    ResponsesResponse,
};
use serde_json::Value;

fn json(text: &str) -> JsonValue {
    JsonValue::parse(text).unwrap()
}

fn answer(content: Option<&str>, calls: Option<Vec<String>>) -> ChatMessage {
    ChatMessage {
        role: "assistant".into(),
        content: content.map(|s| JsonValue::String(s.into())),
        reasoning_content: None,
        tool_calls: calls.map(|calls| calls.iter().map(|call| json(call)).collect()),
        tool_call_id: None,
        name: None,
    }
}

fn response(message: ChatMessage) -> ChatResponse {
    ChatResponse {
        choices: vec![ChatChoice { message }],
        usage: None,
    }
}

fn calling(id: &str, name: &str, arguments: &str) -> ChatResponse {
    response(answer(None, Some(vec![call(id, name, arguments)])))
}

fn call(id: &str, name: &str, arguments: &str) -> String {
    format!(
        r#"{{"id": "{id}", "type": "function",
            "function": {{"name": "{name}", "arguments": {}}}}}"#,
        Value::from(arguments)
    )
}

fn output(resp: &ResponsesResponse) -> Vec<Value> {
    resp.output.iter().map(JsonValue::to_json).collect()
}

fn arguments_of(history: &[ChatMessage]) -> Value {
    history[0].tool_calls.as_ref().unwrap()[0].to_json()["function"]["arguments"].clone()
}

#[test]
fn test_from_chat_response_uses_request_tool_map_for_namespace() {
    let chat = calling("call_status", "mcp__node_repl-status", "{}");
    let tools = vec![json(
        r#"{
            "type": "namespace",
            "name": "mcp__node_repl",
            "tools": [{"type": "function", "name": "status"}]
        }"#,
    )];
    let namespace_tools = namespace_tool_map(&tools, &RelayEnv::default());

    let (resp, _) =
        from_chat_response_with_tool_map("resp_1".into(), "test-model", chat, &namespace_tools);
    let output = output(&resp);
    assert_eq!(output.len(), 1);
    assert_eq!(output[0]["type"], "function_call");
    assert_eq!(output[0]["namespace"], "mcp__node_repl");
    assert_eq!(output[0]["name"], "status");
    assert_eq!(output[0]["call_id"], "call_status");
}

#[test]
fn test_collaboration_calls_request_plaintext_arguments() {
    let call_names = [
        "collaboration-spawn_agent",
        "collaboration-send_message",
        "collaboration-followup_task",
        "collaboration-wait",
        "unrelated",
    ];
    let calls = call_names
        .iter()
        .enumerate()
        .map(|(index, name)| call(&format!("call_{index}"), name, "{}"))
        .collect();
    let chat = response(answer(None, Some(calls)));
    let tools = vec![json(
        r#"{
            "type": "namespace",
            "name": "collaboration",
            "tools": [
                {"type": "function", "name": "spawn_agent"},
                {"type": "function", "name": "send_message"},
                {"type": "function", "name": "followup_task"},
                {"type": "function", "name": "wait"}
            ]
        }"#,
    )];
    let namespace_tools = namespace_tool_map(&tools, &RelayEnv::default());

    let (resp, _) =
        from_chat_response_with_tool_map("resp_1".into(), "test-model", chat, &namespace_tools);
    let output = output(&resp);
    for item in &output[..3] {
        assert_eq!(item["namespace"], "collaboration");
        assert_eq!(item["encrypted_function_args"], Value::Array(vec![]));
    }
    assert!(output[3].get("encrypted_function_args").is_none());
    assert!(output[4].get("encrypted_function_args").is_none());
}

#[test]
fn test_from_chat_response_preserves_hyphen_flat_tool_name() {
    let chat = calling("call_status", "foo-bar", "{}");
    let (resp, _) = from_chat_response("resp_1".into(), "test-model", chat);
    let output = output(&resp);
    assert!(output[0].get("namespace").is_none());
    assert_eq!(output[0]["name"], "foo-bar");
}

#[test]
fn test_from_chat_response_keeps_legacy_non_namespaced_tool_name() {
    let chat = calling("call_status", "mcp__node_repljs", "{}");
    let (resp, _) = from_chat_response("resp_1".into(), "test-model", chat);
    let output = output(&resp);
    assert!(output[0].get("namespace").is_none());
    assert_eq!(output[0]["name"], "mcp__node_repljs");
}

#[test]
fn test_unmapped_dot_name_is_not_promoted_to_namespace() {
    let chat = calling("call_status", "mcp__node_repl.status", "{}");
    let (resp, _) = from_chat_response("resp_1".into(), "test-model", chat);
    let output = output(&resp);
    assert!(output[0].get("namespace").is_none());
    assert!(output[0].get("encrypted_function_args").is_none());
    assert_eq!(output[0]["name"], "mcp__node_repl.status");
}

#[test]
fn test_empty_blocking_tool_arguments_are_completed_as_json_object() {
    let chat = calling("call_empty", "no_args", "");
    let (resp, history) = from_chat_response("resp_empty".into(), "model", chat);
    assert_eq!(output(&resp)[0]["arguments"], "{}");
    assert_eq!(arguments_of(&history), "{}");
}

#[test]
fn test_empty_blocking_custom_tool_arguments_remain_empty_input() {
    let tools = vec![json(r#"{"type": "custom", "name": "custom_empty"}"#)];
    let custom_tools = custom_tool_map(&tools, &RelayEnv::default());
    let chat = calling("call_custom", "custom_empty", "");

    let (resp, history) = from_chat_response_with_tool_maps(
        "resp_custom".into(),
        "model",
        chat,
        &NamespaceToolMap::new(),
        &custom_tools,
    );
    let output = output(&resp);
    assert_eq!(output[0]["type"], "custom_tool_call");
    assert_eq!(output[0]["input"], "");
    assert_eq!(
        arguments_of(&history),
        "{}",
        "chat history still requires valid JSON"
    );
}

#[test]
fn text_reasoning_and_usage_are_translated() {
    let mut message = answer(Some("hello"), None);
    message.reasoning_content = Some("hm".into());
    let chat = ChatResponse {
        choices: vec![ChatChoice { message }],
        usage: Some(ChatUsage {
            prompt_tokens: 11,
            completion_tokens: 7,
            total_tokens: 18,
            cache_hit_tokens: 3,
        }),
    };
    let (resp, history) = from_chat_response("resp_1".into(), "m", chat);
    assert_eq!(resp.id, "resp_1");
    assert_eq!(resp.object, "response");
    assert_eq!(resp.model, "m");
    assert_eq!(resp.usage.input_tokens, 11);
    assert_eq!(resp.usage.output_tokens, 7);
    assert_eq!(resp.usage.total_tokens, 18);
    assert_eq!(resp.usage.input_tokens_details.unwrap().cached_tokens, 3);
    let output = output(&resp);
    assert_eq!(output.len(), 2);
    assert_eq!(output[0]["type"], "reasoning");
    assert_eq!(output[0]["summary"][0]["type"], "summary_text");
    assert_eq!(output[0]["summary"][0]["text"], "hm");
    assert_eq!(output[1]["type"], "message");
    assert_eq!(output[1]["role"], "assistant");
    assert_eq!(output[1]["content"][0]["type"], "output_text");
    assert_eq!(output[1]["content"][0]["text"], "hello");
    assert_eq!(history.len(), 1);
    assert_eq!(history[0].text_content(), "hello");
}

#[test]
fn response_without_choices_is_an_empty_message() {
    let chat = ChatResponse {
        choices: vec![],
        usage: None,
    };
    let (resp, history) = from_chat_response("resp_1".into(), "m", chat);
    let output = output(&resp);
    assert_eq!(output.len(), 1);
    assert_eq!(output[0]["content"][0]["text"], "");
    assert_eq!(resp.usage.total_tokens, 0);
    assert_eq!(history[0].role, "assistant");
}

#[test]
fn random_identifiers_are_version_four_uuids() {
    let mut message = answer(None, Some(vec![call("c1", "f", "{}")]));
    message.reasoning_content = Some("hm".into());
    let (resp, _) = from_chat_response("resp_1".into(), "m", response(message));
    let output = output(&resp);
    for (item, prefix) in [(&output[0], "rs_"), (&output[1], "fc_")] {
        let id = item["id"].as_str().unwrap().strip_prefix(prefix).unwrap();
        assert_eq!(id.len(), 32);
        assert!(id
            .chars()
            .all(|c| c.is_ascii_digit() || ('a'..='f').contains(&c)));
        assert_eq!(&id[12..13], "4");
        assert!(["8", "9", "a", "b"].contains(&&id[16..17]));
    }
    assert_ne!(output[0]["id"], output[1]["id"]);
}

#[test]
fn given_identifiers_go_to_the_items_in_order() {
    let tools = vec![json(r#"{"type": "custom", "name": "exec"}"#)];
    let custom = custom_tool_map(&tools, &RelayEnv::default());
    let mut message = answer(
        Some("text"),
        Some(vec![
            call("c1", "f", r#"{"a":1}"#),
            call("c2", "exec", r#"{"input":"ls"}"#),
        ]),
    );
    message.reasoning_content = Some("hm".into());
    let ids = vec!["one".to_string(), "two".to_string(), "three".to_string()];
    let (resp, _) = from_chat_response_with_ids(
        "r".into(),
        "m",
        response(message),
        &NamespaceToolMap::new(),
        &custom,
        &ids,
    );
    let output = output(&resp);
    assert_eq!(output.len(), 4);
    assert_eq!(output[0]["id"], "rs_one");
    assert_eq!(output[1]["type"], "message");
    let expected: Value = serde_json::from_str(
        r#"{"type": "function_call", "id": "fc_two", "call_id": "c1", "name": "f",
            "arguments": "{\"a\":1}", "status": "completed"}"#,
    )
    .unwrap();
    assert_eq!(output[2], expected);
    let expected: Value = serde_json::from_str(
        r#"{"type": "custom_tool_call", "id": "ctc_three", "call_id": "c2", "name": "exec",
            "input": "ls", "status": "completed"}"#,
    )
    .unwrap();
    assert_eq!(output[3], expected);
}

#[test]
fn call_without_a_function_member_has_empty_parts() {
    let message = answer(None, Some(vec![r#"{"type": "function"}"#.to_string()]));
    let ids = vec!["x".to_string()];
    let (resp, _) = from_chat_response_with_ids(
        "r".into(),
        "m",
        response(message),
        &NamespaceToolMap::new(),
        &CustomToolMap::new(),
        &ids,
    );
    let item = &output(&resp)[0];
    assert_eq!(item["name"], "");
    assert_eq!(item["call_id"], "");
    assert_eq!(item["arguments"], "{}");
}

#[test]
fn replayed_call_has_the_name_that_the_upstream_knows() {
    let tools = vec![json(
        r#"{"type": "namespace", "name": "ns", "tools": [{"type": "function", "name": "run"}]}"#,
    )];
    let namespaces = namespace_tool_map(&tools, &RelayEnv::default());
    let (resp, _) = from_chat_response_with_tool_map(
        "r".into(),
        "m",
        calling("c1", "ns-run", "{}"),
        &namespaces,
    );
    assert_eq!(response_function_name_for_chat(&resp.output[0]), "ns-run");
}

#[test]
fn output_of_a_response_replays_as_the_same_calls() {
    let tools = vec![
        json(r#"{"type": "custom", "name": "exec"}"#),
        json(
            r#"{"type": "namespace", "name": "ns", "tools": [{"type": "function", "name": "run"}]}"#,
        ),
    ];
    let env = RelayEnv::default();
    let message = answer(
        None,
        Some(vec![
            call("c1", "ns-run", r#"{"a":1}"#),
            call("c2", "exec", r#"{"input":"ls"}"#),
            call("c3", "plain", ""),
        ]),
    );
    let (resp, history) = from_chat_response_with_tool_maps(
        "r".into(),
        "m",
        response(message),
        &namespace_tool_map(&tools, &env),
        &custom_tool_map(&tools, &env),
    );
    let req = ResponsesRequest {
        model: "m".into(),
        input: ResponsesInput::Messages(resp.output),
        previous_response_id: None,
        tools,
        stream: false,
        temperature: None,
        max_output_tokens: None,
        system: None,
        instructions: None,
        reasoning: None,
    };
    let chat = to_chat_request(&req, vec![], &SessionStore::new(), &env);
    assert_eq!(chat.messages.len(), 1);
    let calls = |message: &ChatMessage| -> Vec<Value> {
        message
            .tool_calls
            .as_ref()
            .unwrap()
            .iter()
            .map(JsonValue::to_json)
            .collect()
    };
    assert_eq!(calls(&chat.messages[0]), calls(&history[0]));
}
