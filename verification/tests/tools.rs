use codex_relay::calls::{custom_arguments, custom_tool_input, validate_tool_call_entries};
use codex_relay::env::{tool_denylist_from_env, NameSet, RelayEnv};
use codex_relay::json::JsonValue;
use codex_relay::response::from_chat_response_with_tool_maps;
use codex_relay::tool_names::{
    allowed_upstream_tool_names, custom_tool_map, namespace_tool_map,
    response_function_name_for_responses, validate_unique_chat_tool_names,
};
use codex_relay::tools::{convert_tool, convert_tools, convert_tools_with_denylist};
use codex_relay::types::{ChatChoice, ChatMessage, ChatResponse};
use serde_json::Value;

fn json(text: &str) -> JsonValue {
    JsonValue::parse(text).unwrap()
}

fn value(text: &str) -> Value {
    serde_json::from_str(text).unwrap()
}

fn names(list: &[&str]) -> NameSet {
    let mut set = NameSet::new();
    for name in list {
        set.insert(name.to_string());
    }
    set
}

fn denying(list: &str) -> RelayEnv {
    RelayEnv {
        tool_denylist: Some(list.into()),
        ..RelayEnv::default()
    }
}

fn function_names(tools: &[JsonValue]) -> Vec<String> {
    tools
        .iter()
        .filter_map(|tool| {
            tool.to_json()
                .get("function")
                .and_then(|func| func.get("name"))
                .and_then(Value::as_str)
                .map(String::from)
        })
        .collect()
}

#[test]
fn test_convert_tool_flat_to_nested() {
    let flat = json(
        r#"{
            "type": "function",
            "name": "my_fn",
            "description": "does stuff",
            "parameters": {"type": "object"}
        }"#,
    );
    let nested = convert_tool(&flat).to_json();
    assert_eq!(nested["type"], "function");
    assert_eq!(nested["function"]["name"], "my_fn");
    assert_eq!(nested["function"]["description"], "does stuff");
}

#[test]
fn flat_tool_leaves_strict_behind() {
    let flat = json(
        r#"{"type": "function", "name": "foo", "description": "d", "parameters": {}, "strict": false}"#,
    );
    assert_eq!(
        convert_tool(&flat).to_json(),
        value(
            r#"{"type": "function", "function": {"name": "foo", "description": "d", "parameters": {}}}"#
        )
    );
}

#[test]
fn test_convert_tool_already_nested() {
    let already = json(
        r#"{
            "type": "function",
            "function": {"name": "my_fn", "description": "does stuff"}
        }"#,
    );
    let result = convert_tool(&already);
    assert_eq!(result.to_json(), already.to_json());
}

#[test]
fn test_convert_tools_preserves_subagent_tools_without_denylist() {
    let tools = vec![
        json(r#"{"type": "function", "name": "spawn_agent"}"#),
        json(r#"{"type": "function", "name": "wait_agent"}"#),
    ];
    let converted = convert_tools_with_denylist(&tools, &NameSet::new());
    assert_eq!(function_names(&converted), ["spawn_agent", "wait_agent"]);
}

#[test]
fn test_namespace_custom_tool_uses_bare_name_and_round_trips_as_custom() {
    let tools = vec![json(
        r#"{
            "type": "namespace",
            "name": "functions",
            "tools": [
                {"type": "custom", "name": "exec", "description": "Run code"},
                {"type": "function", "name": "wait", "parameters": {"type": "object"}}
            ]
        }"#,
    )];

    let converted = convert_tools_with_denylist(&tools, &NameSet::new());
    assert_eq!(function_names(&converted), ["exec", "functions-wait"]);
    assert_eq!(
        converted[0].to_json()["function"]["parameters"]["required"],
        value(r#"["input"]"#)
    );

    let env = RelayEnv::default();
    let namespace_tools = namespace_tool_map(&tools, &env);
    let custom_tools = custom_tool_map(&tools, &env);
    assert!(!namespace_tools.contains_key("exec"));
    assert!(custom_tools.contains_key("exec"));

    let chat = ChatResponse {
        choices: vec![ChatChoice {
            message: ChatMessage {
                role: "assistant".into(),
                content: None,
                reasoning_content: None,
                tool_calls: Some(vec![json(
                    r#"{
                        "id": "call_exec",
                        "type": "function",
                        "function": {
                            "name": "exec",
                            "arguments": "{\"input\":\"ls\"}"
                        }
                    }"#,
                )]),
                tool_call_id: None,
                name: None,
            },
        }],
        usage: None,
    };
    let (response, _) = from_chat_response_with_tool_maps(
        "resp_exec".into(),
        "model",
        chat,
        &namespace_tools,
        &custom_tools,
    );
    let item = response.output[0].to_json();
    assert_eq!(item["type"], "custom_tool_call");
    assert_eq!(item["name"], "exec");
    assert_eq!(item["input"], "ls");
    assert!(item.get("namespace").is_none());
}

#[test]
fn test_rejects_nested_custom_bare_name_collision() {
    let nested_custom = json(
        r#"{
            "type": "namespace",
            "name": "functions",
            "tools": [{"type": "custom", "name": "exec"}]
        }"#,
    );
    for conflicting in [
        r#"{"type": "custom", "name": "exec"}"#,
        r#"{"type": "function", "name": "exec"}"#,
        r#"{
            "type": "namespace",
            "name": "other",
            "tools": [{"type": "custom", "name": "exec"}]
        }"#,
    ] {
        let tools = vec![json(conflicting), nested_custom.clone()];

        let error = validate_unique_chat_tool_names(&tools, &RelayEnv::default()).unwrap_err();
        assert!(error.contains("exec"));
    }
}

#[test]
fn test_denylist_filters_nested_custom_from_tools_and_reverse_map() {
    let tools = vec![json(
        r#"{
            "type": "namespace",
            "name": "functions",
            "tools": [
                {"type": "custom", "name": "exec"},
                {"type": "function", "name": "wait"}
            ]
        }"#,
    )];
    let env = denying("exec");

    let converted = convert_tools(&tools, &env);
    assert_eq!(function_names(&converted), ["functions-wait"]);
    assert!(!custom_tool_map(&tools, &env).contains_key("exec"));
}

#[test]
fn test_rejects_flat_and_namespace_tool_name_collision() {
    let tools = vec![
        json(r#"{"type": "function", "name": "collaboration-spawn_agent"}"#),
        json(
            r#"{
                "type": "namespace",
                "name": "collaboration",
                "tools": [{"type": "function", "name": "spawn_agent"}]
            }"#,
        ),
    ];

    let error = validate_unique_chat_tool_names(&tools, &RelayEnv::default()).unwrap_err();
    assert!(error.contains("collaboration-spawn_agent"));
    assert_eq!(
        error,
        r#"ambiguous tool name "collaboration-spawn_agent": declared more than once"#
    );
}

#[test]
fn test_rejects_nested_chat_and_namespace_tool_name_collision() {
    let tools = vec![
        json(r#"{"type": "function", "function": {"name": "collaboration-spawn_agent"}}"#),
        json(
            r#"{
                "type": "namespace",
                "name": "collaboration",
                "tools": [{"type": "function", "name": "spawn_agent"}]
            }"#,
        ),
    ];

    let error = validate_unique_chat_tool_names(&tools, &RelayEnv::default()).unwrap_err();
    assert!(error.contains("collaboration-spawn_agent"));
}

#[test]
fn test_rejects_namespace_tool_name_collision() {
    let tools = vec![
        json(
            r#"{
                "type": "namespace",
                "name": "a",
                "tools": [{"type": "function", "name": "b-c"}]
            }"#,
        ),
        json(
            r#"{
                "type": "namespace",
                "name": "a-b",
                "tools": [{"type": "function", "name": "c"}]
            }"#,
        ),
    ];

    let error = validate_unique_chat_tool_names(&tools, &RelayEnv::default()).unwrap_err();
    assert!(error.contains("a-b-c"));
}

#[test]
fn test_denylisted_collision_is_removed_from_tools_and_reverse_map() {
    let tools = vec![
        json(r#"{"type": "function", "name": "collaboration-spawn_agent"}"#),
        json(
            r#"{
                "type": "namespace",
                "name": "collaboration",
                "tools": [{"type": "function", "name": "spawn_agent"}]
            }"#,
        ),
    ];
    let env = denying("collaboration-spawn_agent");

    assert!(validate_unique_chat_tool_names(&tools, &env).is_ok());
    assert!(convert_tools(&tools, &env).is_empty());
    assert!(namespace_tool_map(&tools, &env).is_empty());
}

#[test]
fn test_convert_tools_denylist_filters_flat_and_namespaced_tools() {
    let tools = vec![
        json(r#"{"type": "function", "name": "spawn_agent"}"#),
        json(r#"{"type": "function", "name": "exec_command"}"#),
        json(
            r#"{
                "type": "namespace",
                "name": "mcp__server",
                "tools": [
                    {"type": "function", "name": "blocked"},
                    {"type": "function", "name": "allowed"}
                ]
            }"#,
        ),
    ];
    let denied = names(&["spawn_agent", "mcp__server-blocked"]);

    let converted = convert_tools_with_denylist(&tools, &denied);
    assert_eq!(
        function_names(&converted),
        ["exec_command", "mcp__server-allowed"]
    );
}

#[test]
fn test_tool_call_validation_rejects_undeclared_duplicate_and_empty_ids() {
    let allowed = names(&["allowed"]);
    assert_eq!(
        validate_tool_call_entries(&[("call_1", "undeclared")], &allowed),
        Err("upstream returned an undeclared tool call")
    );
    assert_eq!(
        validate_tool_call_entries(&[("", "allowed")], &allowed),
        Err("upstream returned an empty tool call ID")
    );
    assert_eq!(
        validate_tool_call_entries(&[("call_1", "allowed"), ("call_1", "allowed")], &allowed),
        Err("upstream returned duplicate tool call IDs")
    );
    assert!(
        validate_tool_call_entries(&[("call_1", "allowed"), ("call_2", "allowed")], &allowed)
            .is_ok()
    );
}

#[test]
fn test_allowed_tools_intersect_declared_and_final_upstream_body() {
    let declared = vec![
        json(r#"{"type": "function", "function": {"name": "kept"}}"#),
        json(r#"{"type": "function", "function": {"name": "removed"}}"#),
    ];
    let upstream_body = json(
        r#"{
            "tools": [
                {"type": "function", "function": {"name": "kept"}},
                {"type": "function", "function": {"name": "injected"}},
                {"type": "web_search", "function": {"name": "removed"}},
                {"function": {"name": "removed"}}
            ]
        }"#,
    );

    let allowed = allowed_upstream_tool_names(&declared, &upstream_body);
    assert_eq!(allowed.len(), 1);
    assert!(allowed.contains("kept"));
    assert!(allowed_upstream_tool_names(&declared, &json("{}")).is_empty());
}

#[test]
fn denylist_is_trimmed_and_has_no_empty_names() {
    let denied = tool_denylist_from_env(&denying(" a ,, b,\t"));
    assert_eq!(denied.len(), 2);
    assert!(denied.contains("a"));
    assert!(denied.contains("b"));
    assert!(tool_denylist_from_env(&RelayEnv::default()).is_empty());
}

#[test]
fn custom_tool_becomes_a_function_with_one_string() {
    let tools = vec![json(r#"{"type": "custom", "name": "apply_patch"}"#)];
    let converted = convert_tools(&tools, &RelayEnv::default());
    assert_eq!(
        converted[0].to_json(),
        value(
            r#"{
                "type": "function",
                "function": {
                    "name": "apply_patch",
                    "description": "Provide the raw custom tool input.",
                    "parameters": {
                        "type": "object",
                        "properties": {"patch": {"type": "string"}},
                        "required": ["patch"],
                        "additionalProperties": false
                    }
                }
            }"#
        )
    );
}

#[test]
fn builtin_tools_are_dropped_and_nested_children_are_renamed() {
    let tools = vec![
        json(r#"{"type": "web_search"}"#),
        json(r#"{"name": "no type"}"#),
        json(
            r#"{"type": "namespace", "name": "ns", "tools": [
                {"type": "function", "name": "a", "function": {"name": "b", "strict": true}},
                {"type": "function", "function": {"name": "c"}},
                {"type": "web_search"}
            ]}"#,
        ),
    ];
    let converted = convert_tools(&tools, &RelayEnv::default());
    assert_eq!(function_names(&converted), ["ns-a", "c"]);
    assert_eq!(converted[0].to_json()["function"]["strict"], true);
}

#[test]
fn distinct_flat_names_lead_back_to_their_tools() {
    let tools = vec![
        json(
            r#"{"type": "namespace", "name": "a", "tools": [
                {"type": "function", "name": "x"}, {"type": "function", "name": "y"}
            ]}"#,
        ),
        json(
            r#"{"type": "namespace", "name": "b", "tools": [{"type": "function", "name": "x"}]}"#,
        ),
    ];
    let env = RelayEnv::default();
    assert!(validate_unique_chat_tool_names(&tools, &env).is_ok());
    let map = namespace_tool_map(&tools, &env);
    for (flat, namespace, name) in [("a-x", "a", "x"), ("a-y", "a", "y"), ("b-x", "b", "x")] {
        assert_eq!(
            response_function_name_for_responses(flat, &map),
            (Some(namespace.to_string()), name.to_string())
        );
    }
    assert_eq!(
        response_function_name_for_responses("c-x", &map),
        (None, "c-x".to_string())
    );
}

#[test]
fn later_declaration_of_one_flat_name_counts_in_the_map() {
    let tools = vec![
        json(
            r#"{"type": "namespace", "name": "a", "tools": [{"type": "function", "name": "b-c"}]}"#,
        ),
        json(
            r#"{"type": "namespace", "name": "a-b", "tools": [{"type": "function", "name": "c"}]}"#,
        ),
    ];
    let map = namespace_tool_map(&tools, &RelayEnv::default());
    let found = map.get("a-b-c").unwrap();
    assert_eq!(found.namespace, "a-b");
    assert_eq!(found.name, "c");
}

#[test]
fn apply_patch_as_a_function_is_a_custom_tool() {
    for (schema, field) in [
        (r#"{"properties": {"diff": {"type": "string"}}}"#, "diff"),
        (r#"{"properties": {"diff": {"type": "number"}}}"#, "patch"),
        (
            r#"{"properties": {"a": {"type": "string"}, "b": {"type": "string"}}}"#,
            "patch",
        ),
        ("{}", "patch"),
    ] {
        let tools = vec![json(&format!(
            r#"{{"type": "function", "name": "apply_patch", "parameters": {schema}}}"#
        ))];
        let map = custom_tool_map(&tools, &RelayEnv::default());
        assert_eq!(map.get("apply_patch").unwrap().argument_field, field);
    }
    let other = vec![json(r#"{"type": "function", "name": "exec"}"#)];
    assert!(custom_tool_map(&other, &RelayEnv::default()).is_empty());
}

#[test]
fn custom_input_survives_the_way_through_arguments() {
    for input in ["", "ls -l", "quote \" and \\ and \n", "{\"input\": 1}", "žluťoučký"] {
        let arguments = custom_arguments("input", JsonValue::String(input.into()));
        assert_eq!(custom_tool_input(&arguments, "input"), input);
    }
    assert_eq!(
        custom_arguments("patch", JsonValue::String("a\"b".into())),
        r#"{"patch":"a\"b"}"#
    );
}

#[test]
fn input_of_a_custom_tool_falls_back_to_the_arguments() {
    assert_eq!(custom_tool_input("not json", "input"), "not json");
    assert_eq!(custom_tool_input(r#"{"other":"x"}"#, "input"), r#"{"other":"x"}"#);
    assert_eq!(custom_tool_input(r#"{"input":7}"#, "input"), r#"{"input":7}"#);
    assert_eq!(custom_tool_input(r#"{"input":"x"}"#, "input"), "x");
}

#[test]
fn empty_name_is_never_allowed() {
    let allowed = names(&[""]);
    assert_eq!(
        validate_tool_call_entries(&[("c", "")], &allowed),
        Err("upstream returned an undeclared tool call")
    );
}

#[test]
fn ambiguous_name_is_quoted_with_escapes() {
    let tools = vec![
        json(r#"{"type": "function", "name": "a\"b"}"#),
        json(r#"{"type": "function", "name": "a\"b"}"#),
    ];
    assert_eq!(
        validate_unique_chat_tool_names(&tools, &RelayEnv::default()),
        Err("ambiguous tool name \"a\\\"b\": declared more than once".to_string())
    );
}

#[test]
fn json_values_keep_their_content() {
    let text = r#"{"a":[1,2.5,null,true,"x"],"b":{"c":{}}}"#;
    assert_eq!(json(text).to_text(), text);
    assert_eq!(json(text).to_json(), value(text));
    assert_eq!(JsonValue::from_json(value(text)).to_text(), text);
    assert_eq!(json(text).clone().to_text(), text);
    assert_eq!(json(r#"{"k":1,"k":2}"#).to_text(), r#"{"k":2}"#);
    assert!(JsonValue::parse("{").is_none());
}
