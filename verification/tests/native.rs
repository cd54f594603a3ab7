use std::collections::hash_map::DefaultHasher;
use std::hash::{Hash, Hasher};

use codex_relay::ids::{
    bound_native_tool_name_value, cut_name_with_hash, hash_of_text,
    opencode_session_id_for_request, request_fingerprint, session_id_for_fresh,
    session_id_for_hash,
};
use codex_relay::items::normalize_opencode_go_input_item;
use codex_relay::json::JsonValue;
use codex_relay::native::{
    normalize_opencode_go_responses_payload, try_normalize_opencode_go_responses_payload,
};
use codex_relay::schema::{
    count_schema_refs, strip_tool_schema_refs, try_strip_tool_schema_refs,
};
use codex_relay::text::{hex, is_blank, split_pieces, trim};
use codex_relay::types::{ResponsesInput, ResponsesRequest};
use serde_json::Value;

fn json(text: &str) -> JsonValue {
    JsonValue::parse(text).unwrap()
}

fn value(text: &str) -> Value {
    serde_json::from_str(text).unwrap()
}

fn hash(text: &str) -> u64 {
    let mut hasher = DefaultHasher::new();
    text.hash(&mut hasher);
    hasher.finish()
}

fn request(input: ResponsesInput) -> ResponsesRequest {
    ResponsesRequest {
        model: "test".into(),
        input,
        previous_response_id: None,
        tools: vec![],
        stream: false,
        temperature: None,
        max_output_tokens: None,
        system: None,
        instructions: None,
        reasoning: None,
    }
}

fn normalized(text: &str) -> (Value, (usize, usize, usize)) {
    let mut payload = json(text);
    let counts = normalize_opencode_go_responses_payload(&mut payload);
    (payload.to_json(), counts)
}

#[test]
fn session_identity_is_a_hash_of_the_text() {
    let req = request(ResponsesInput::Text("hello".into()));
    let id = opencode_session_id_for_request(&req);
    assert_eq!(id, format!("codex-relay-{:016x}", hash("hello")));
    assert_eq!(id, opencode_session_id_for_request(&req));
}

#[test]
fn session_identity_is_a_hash_of_the_first_message() {
    let first = r#"{"content":"hi","role":"user","type":"message"}"#;
    let req = request(ResponsesInput::Messages(vec![
        json(r#"{"type": "reasoning"}"#),
        json(r#"{"type": "message", "role": "user", "content": "hi"}"#),
        json(r#"{"type": "message", "role": "user", "content": "again"}"#),
    ]));
    assert_eq!(request_fingerprint(&req).as_deref(), Some(first));
    assert_eq!(
        opencode_session_id_for_request(&req),
        format!("codex-relay-{:016x}", hash(first))
    );
}

#[test]
fn session_identity_without_a_message_is_random() {
    let req = request(ResponsesInput::Messages(vec![json(
        r#"{"type": "reasoning"}"#,
    )]));
    assert!(request_fingerprint(&req).is_none());
    let id = opencode_session_id_for_request(&req);
    let digits = id.strip_prefix("codex-relay-").unwrap();
    assert_eq!(digits.len(), 32);
    assert_eq!(&digits[12..13], "4");
    assert_ne!(id, opencode_session_id_for_request(&req));
    assert_eq!(session_id_for_fresh("abc"), "codex-relay-abc");
}

#[test]
fn long_names_are_cut_and_hashed() {
    let fits = "a".repeat(64);
    assert_eq!(bound_native_tool_name_value(&fits), fits);
    let long = "a".repeat(65);
    let short = bound_native_tool_name_value(&long);
    assert_eq!(
        short,
        format!("{}-{:08x}", "a".repeat(55), hash(&long) as u32)
    );
    assert_eq!(short.len(), 64);
    assert_eq!(bound_native_tool_name_value(&short), short);
}

#[test]
fn length_of_a_name_is_counted_in_bytes() {
    let wide = "é".repeat(33);
    let short = bound_native_tool_name_value(&wide);
    assert_eq!(short, format!("{wide}-{:08x}", hash(&wide) as u32));
    assert_eq!(short.chars().count(), 42);
    let fits = "é".repeat(32);
    assert_eq!(bound_native_tool_name_value(&fits), fits);
}

#[test]
fn hexadecimal_digits_are_padded() {
    assert_eq!(hex(0xbeef, 8), "0000beef");
    assert_eq!(hex(0x1234_5678_9abc_def0, 16), "123456789abcdef0");
    assert_eq!(hex(0x1234_5678_9abc_def0, 8), "9abcdef0");
}

#[test]
fn white_space_of_unicode_is_trimmed() {
    assert_eq!(trim("\u{2003} a b\u{a0}\n"), "a b");
    assert_eq!(trim(" \t"), "");
    assert!(is_blank("\u{3000}\u{85}"));
    assert!(!is_blank("\u{200b}"));
    assert_eq!(split_pieces(",a,,b", ','), ["", "a", "", "b"]);
    assert_eq!(split_pieces("", ','), [""]);
}

#[test]
fn custom_call_becomes_a_function_call() {
    let item = json(
        r#"{"type": "custom_tool_call", "call_id": "c1", "name": "apply_patch", "input": "x", "id": "i"}"#,
    );
    assert_eq!(
        normalize_opencode_go_input_item(&item).to_json(),
        value(
            r#"{"type": "function_call", "call_id": "c1", "name": "apply_patch",
                "arguments": "{\"patch\":\"x\"}"}"#
        )
    );
    let bare = normalize_opencode_go_input_item(&json(r#"{"type": "custom_tool_call"}"#));
    assert_eq!(
        bare.to_json(),
        value(
            r#"{"type": "function_call", "call_id": null, "name": "tool",
                "arguments": "{\"input\":\"\"}"}"#
        )
    );
}

#[test]
fn outputs_are_normalized() {
    let item = json(r#"{"type": "custom_tool_call_output", "call_id": "c1", "output": "x"}"#);
    assert_eq!(
        normalize_opencode_go_input_item(&item).to_json(),
        value(r#"{"type": "function_call_output", "call_id": "c1", "output": "x"}"#)
    );
    let orphan = json(r#"{"type": "function_call_output", "call_id": "", "output": {"a": 1}}"#);
    assert_eq!(
        normalize_opencode_go_input_item(&orphan).to_json(),
        value(
            r#"{"type": "message", "role": "developer", "content": "[tool output]\n{\"a\":1}"}"#
        )
    );
    let bound = json(r#"{"type": "function_call_output", "call_id": "c1"}"#);
    assert_eq!(
        normalize_opencode_go_input_item(&bound).to_json(),
        bound.to_json()
    );
}

#[test]
fn normalizing_an_item_twice_changes_nothing_more() {
    for text in [
        r#"{"type": "custom_tool_call", "call_id": "c1", "name": "n", "input": "x"}"#,
        r#"{"type": "custom_tool_call_output", "call_id": "c1", "output": "x"}"#,
        r#"{"type": "function_call_output", "output": "x"}"#,
        r#"{"type": "message", "content": "x"}"#,
        r#"7"#,
    ] {
        let once = normalize_opencode_go_input_item(&json(text));
        let twice = normalize_opencode_go_input_item(&once);
        assert_eq!(once.to_json(), twice.to_json());
    }
    let bare = normalize_opencode_go_input_item(&json(r#"{"type": "custom_tool_call_output"}"#));
    let twice = normalize_opencode_go_input_item(&bare);
    assert_eq!(twice.to_json()["role"], "developer");
}

#[test]
fn payload_is_normalized_and_counted() {
    let (payload, counts) = normalized(
        r#"{
            "model": "m",
            "input": [
                {"type": "message", "role": "user", "content": "hi"},
                {"type": "function_call_output", "output": "x"},
                {"type": "custom_tool_call", "call_id": "c", "name": "n", "input": "y"}
            ],
            "tools": [
                {"type": "function", "name": "f", "search_content_types": [],
                 "parameters": {"properties": {"a": {"$ref": "x"}, "b": [{"$ref": "y"}]}}},
                {"type": "web_search_preview", "search_content_types": ["text"]},
                {"type": "custom", "name": "exec", "format": {"type": "text"}, "input_format": 1},
                {"type": "custom"},
                {"type": "image_generation"},
                {"type": "namespace", "name": "ns", "tools": [
                    {"type": "function", "name": "g"},
                    {"type": "custom", "name": "apply_patch"},
                    {"type": "custom"},
                    {"type": "other"}
                ]}
            ],
            "reasoning": {"effort": "none"}
        }"#,
    );
    assert_eq!(counts, (1, 2, 1));
    assert_eq!(
        payload,
        value(
            r#"{
                "model": "m",
                "input": [
                    {"type": "message", "role": "user", "content": "hi"},
                    {"type": "message", "role": "developer", "content": "[tool output]\nx"},
                    {"type": "function_call", "call_id": "c", "name": "n",
                     "arguments": "{\"input\":\"y\"}"}
                ],
                "tools": [
                    {"type": "function", "name": "f",
                     "parameters": {"properties": {"a": {}, "b": [{}]}}},
                    {"type": "web_search_preview", "search_content_types": ["text"]},
                    {"type": "function", "name": "exec", "parameters": {
                        "type": "object",
                        "properties": {"input": {"type": "string"}},
                        "required": ["input"]
                    }},
                    {"type": "function", "name": "ns-g"},
                    {"type": "function", "name": "ns-apply_patch", "parameters": {
                        "type": "object",
                        "properties": {"patch": {"type": "string"}},
                        "required": ["patch"]
                    }}
                ]
            }"#
        )
    );
}

#[test]
fn payload_without_lists_stays_as_it_is() {
    for text in [
        r#"{"input": "text", "tools": null, "reasoning": {"effort": "low"}}"#,
        r#"{"reasoning": "none"}"#,
        "[1, 2]",
    ] {
        let (payload, counts) = normalized(text);
        assert_eq!(payload, value(text));
        assert_eq!(counts, (0, 0, 0));
    }
}

#[test]
fn native_names_are_bounded() {
    let long = "n".repeat(80);
    let (payload, counts) = normalized(&format!(
        r#"{{"tools": [
            {{"type": "function", "name": "{long}"}},
            {{"type": "namespace", "name": "ns", "tools": [
                {{"type": "function", "name": "{long}"}}
            ]}}
        ]}}"#
    ));
    assert_eq!(counts, (0, 0, 0));
    let flat = format!("ns-{long}");
    assert_eq!(
        payload["tools"][0]["name"],
        bound_native_tool_name_value(&long)
    );
    assert_eq!(
        payload["tools"][1]["name"],
        bound_native_tool_name_value(&flat)
    );
    for tool in payload["tools"].as_array().unwrap() {
        assert!(tool["name"].as_str().unwrap().len() <= 64);
    }
}

#[test]
fn schema_references_are_stripped_once() {
    let mut tools = vec![
        json(r#"{"$ref": "x", "inner": {"$ref": "y"}}"#),
        json(r#"{"a": [{"$ref": 1}, 2], "b": {"c": {"$ref": null}}}"#),
    ];
    assert_eq!(strip_tool_schema_refs(&mut tools), 3);
    assert_eq!(tools[0].to_json(), value("{}"));
    assert_eq!(tools[1].to_json(), value(r#"{"a": [{}, 2], "b": {"c": {}}}"#));
    assert_eq!(strip_tool_schema_refs(&mut tools), 0);
    assert_eq!(tools[1].to_json(), value(r#"{"a": [{}, 2], "b": {"c": {}}}"#));
}

#[test]
fn counting_before_stripping_gives_the_same_number() {
    let text = r#"{"a": [{"$ref": 1}, {"b": {"$ref": 2}}], "c": {"$ref": {"$ref": 3}}}"#;
    assert_eq!(count_schema_refs(&json(text)), Some(3));
    let mut tools = vec![json(text), json("7")];
    assert_eq!(try_strip_tool_schema_refs(&mut tools), Some(3));
    assert_eq!(
        tools[0].to_json(),
        value(r#"{"a": [{}, {"b": {}}], "c": {}}"#)
    );
}

#[test]
fn payload_that_can_be_counted_is_normalized() {
    let text = r#"{"tools": [{"type": "custom", "name": "exec"}, {"type": "x", "$ref": 1}]}"#;
    let mut payload = json(text);
    let counts = try_normalize_opencode_go_responses_payload(&mut payload);
    assert_eq!(counts, Some((0, 0, 0)));
    assert_eq!((payload.to_json(), (0, 0, 0)), normalized(text));
}

#[test]
fn names_made_of_given_hashes() {
    assert_eq!(session_id_for_hash(0xab), "codex-relay-00000000000000ab");
    assert_eq!(cut_name_with_hash("short", 0x1_0000_00ff), "short-000000ff");
    assert_eq!(
        cut_name_with_hash(&"x".repeat(60), 1),
        format!("{}-00000001", "x".repeat(55))
    );
    assert_eq!(hash_of_text("tool"), hash("tool"));
}

#[test]
fn only_orphan_outputs_are_counted_among_the_items() {
    let (payload, counts) = normalized(
        r#"{"input": [{"type": "custom_tool_call", "call_id": "c1", "name": "exec", "input": "ls"}]}"#,
    );
    assert_eq!(counts, (0, 0, 0));
    assert_eq!(payload["input"][0]["type"], "function_call");

    let (_, counts) = normalized(
        r#"{"input": [
            {"type": "function_call_output", "output": "x"},
            {"type": "function_call_output", "call_id": "", "output": "y"},
            {"type": "function_call_output", "call_id": "c", "output": "z"},
            {"type": "custom_tool_call_output", "call_id": "c", "output": "z"}
        ]}"#,
    );
    assert_eq!(counts, (2, 0, 0));
}

#[test]
fn removed_reasoning_is_no_tool_field() {
    let (payload, counts) = normalized(
        r#"{"reasoning": {"effort": "none"}, "tools": [{"type": "image_generation"}]}"#,
    );
    assert_eq!(counts, (0, 0, 0));
    assert_eq!(payload, value(r#"{"tools": []}"#));
}
