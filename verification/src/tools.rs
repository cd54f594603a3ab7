//! Flattening the tools of a Responses request into Chat Completions tools.
use vstd::prelude::*;

use crate::env::{NameSet, RelayEnv, tool_denylist_from_env};
use crate::json::{Json, JsonMap, JsonValue, jsons_of};
use crate::text::{joined, same_text};

verus! {

/// The field that carries the input of a custom tool.
pub open spec fn argument_field(name: Seq<char>) -> Seq<char> {
    if name == "apply_patch"@ {
        "patch"@
    } else {
        "input"@
    }
}

/// The field that carries the input of a custom tool.
pub fn custom_argument_field(name: &str) -> (r: &'static str)
    ensures
        r@ == argument_field(name@),
{
    if same_text(name, "apply_patch") {
        "patch"
    } else {
        "input"
    }
}

/// The flat name of a tool in a namespace.
pub open spec fn namespaced(namespace: Seq<char>, name: Seq<char>) -> Seq<char> {
    namespace + "-"@ + name
}

/// The flat name of a tool in a namespace. Chat Completions tool names match
/// `^[a-zA-Z0-9_-]+$`; the separator alone does not tell where a name was joined.
pub fn chat_function_name_for_namespace_tool(namespace: &str, name: &str) -> (r: String)
    ensures
        r@ == namespaced(namespace@, name@),
{
    let prefix = joined(namespace, "-");
    joined(prefix.as_str(), name)
}

/// The name that stands in the `function` member of a tool.
pub open spec fn function_name(tool: Json) -> Option<Seq<char>> {
    match tool.get("function"@) {
        Some(function) => function.str_at("name"@),
        None => None,
    }
}

/// The name that stands in the `function` member of a tool.
pub fn tool_function_name(tool: &JsonValue) -> (r: Option<&str>)
    ensures
        match r {
            Some(s) => function_name(tool@) == Some(s@),
            None => function_name(tool@) is None,
        },
{
    match tool.get("function") {
        Some(function) => function.get_str("name"),
        None => None,
    }
}

/// The model of an optional text.
pub open spec fn opt_str(s: Option<&str>) -> Option<Seq<char>> {
    match s {
        Some(t) => Some(t@),
        None => None,
    }
}

/// The name by which the denylist knows a tool.
pub open spec fn forwarded_name(tool: Json, override_name: Option<Seq<char>>) -> Option<Seq<char>> {
    if override_name is Some {
        override_name
    } else if function_name(tool) is Some {
        function_name(tool)
    } else {
        tool.str_at("name"@)
    }
}

/// Whether the denylist names a tool.
pub open spec fn denies(
    denied: Set<Seq<char>>,
    tool: Json,
    override_name: Option<Seq<char>>,
) -> bool {
    match forwarded_name(tool, override_name) {
        Some(name) => denied.contains(name),
        None => false,
    }
}

/// Whether the denylist names a tool.
pub fn tool_is_denied(tool: &JsonValue, override_name: Option<&str>, denied: &NameSet) -> (r: bool)
    ensures
        r == denies(denied@, tool@, opt_str(override_name)),
{
    if denied.is_empty() {
        return false;
    }
    match override_name {
        Some(name) => denied.contains(name),
        None => match tool_function_name(tool) {
            Some(name) => denied.contains(name),
            None => match tool.get_str("name") {
                Some(name) => denied.contains(name),
                None => false,
            },
        },
    }
}

/// `target` with the member of `source` under a key, where there is one.
pub open spec fn carried(
    target: Map<Seq<char>, Json>,
    source: Map<Seq<char>, Json>,
    key: Seq<char>,
) -> Map<Seq<char>, Json> {
    if source.contains_key(key) {
        target.insert(key, source[key])
    } else {
        target
    }
}

/// The `function` member for a tool in the flat form: its name, description
/// and parameters.
pub open spec fn flat_function(
    tool: Map<Seq<char>, Json>,
    override_name: Option<Seq<char>>,
) -> Map<Seq<char>, Json> {
    let named = match override_name {
        Some(name) => Map::<Seq<char>, Json>::empty().insert("name"@, Json::String(name)),
        None => carried(Map::empty(), tool, "name"@),
    };
    carried(carried(named, tool, "description"@), tool, "parameters"@)
}

/// A Chat Completions tool around a `function` member.
pub open spec fn function_tool(function: Map<Seq<char>, Json>) -> Json {
    Json::Object(
        Map::<Seq<char>, Json>::empty().insert("type"@, Json::String("function"@)).insert(
            "function"@,
            Json::Object(function),
        ),
    )
}

/// The Chat Completions form of a tool. A tool that has a `function` member is
/// in that form already; a flat function tool gets one.
pub open spec fn chat_tool(tool: Json, override_name: Option<Seq<char>>) -> Json {
    match tool {
        Json::Object(m) => if m.contains_key("function"@) {
            match (override_name, m["function"@]) {
                (Some(name), Json::Object(function)) => Json::Object(
                    m.insert(
                        "function"@,
                        Json::Object(function.insert("name"@, Json::String(name))),
                    ),
                ),
                _ => tool,
            }
        } else if tool.has_str("type"@, "function"@) {
            function_tool(flat_function(m, override_name))
        } else {
            tool
        },
        _ => tool,
    }
}

fn carry(target: &mut JsonMap, source: &JsonMap, key: &str)
    ensures
        final(target)@ == carried(old(target)@, source@, key@),
{
    if let Some(v) = source.get(key) {
        target.insert(key.to_owned(), v.clone());
    }
}

fn function_tool_value(function: JsonMap) -> (r: JsonValue)
    ensures
        r@ == function_tool(function@),
{
    let mut tool = JsonMap::new();
    tool.insert("type".to_owned(), JsonValue::text("function"));
    tool.insert("function".to_owned(), JsonValue::Object(function));
    JsonValue::Object(tool)
}

/// Responses API tool format to Chat Completions tool format, under another
/// name where one is given.
pub fn convert_tool_with_name(tool: &JsonValue, override_name: Option<&str>) -> (r: JsonValue)
    ensures
        r@ == chat_tool(tool@, opt_str(override_name)),
{
    let obj = match tool.as_object() {
        Some(obj) => obj,
        None => {
            return tool.clone();
        },
    };
    if let Some(function) = obj.get("function") {
        if let (Some(name), JsonValue::Object(members)) = (override_name, function) {
            let mut members = members.clone();
            members.insert("name".to_owned(), JsonValue::text(name));
            let mut out = obj.clone();
            out.insert("function".to_owned(), JsonValue::Object(members));
            return JsonValue::Object(out);
        }
        return tool.clone();
    }
    if tool.has_str("type", "function") {
        let mut function = JsonMap::new();
        match override_name {
            Some(name) => function.insert("name".to_owned(), JsonValue::text(name)),
            None => carry(&mut function, obj, "name"),
        }
        carry(&mut function, obj, "description");
        carry(&mut function, obj, "parameters");
        return function_tool_value(function);
    }
    tool.clone()
}

/// Responses API tool format to Chat Completions tool format.
///
/// Responses API (flat):
///   `{"type":"function","name":"foo","description":"...","parameters":{...},"strict":false}`
///
/// Chat Completions (nested):
///   `{"type":"function","function":{"name":"foo","description":"...","parameters":{...}}}`
pub fn convert_tool(tool: &JsonValue) -> (r: JsonValue)
    ensures
        r@ == chat_tool(tool@, None),
{
    convert_tool_with_name(tool, None)
}

/// A schema for an object with one field, a required string.
pub open spec fn input_schema(field: Seq<char>) -> Map<Seq<char>, Json> {
    let string_schema = Json::Object(
        Map::<Seq<char>, Json>::empty().insert("type"@, Json::String("string"@)),
    );
    Map::<Seq<char>, Json>::empty().insert("type"@, Json::String("object"@)).insert(
        "properties"@,
        Json::Object(Map::<Seq<char>, Json>::empty().insert(field, string_schema)),
    ).insert("required"@, Json::Array(seq![Json::String(field)]))
}

/// A schema for an object with one field, a required string.
pub fn input_schema_value(field: &str) -> (r: JsonMap)
    ensures
        r@ == input_schema(field@),
{
    let mut string_schema = JsonMap::new();
    string_schema.insert("type".to_owned(), JsonValue::text("string"));
    let mut properties = JsonMap::new();
    properties.insert(field.to_owned(), JsonValue::Object(string_schema));
    let mut required: Vec<JsonValue> = Vec::new();
    required.push(JsonValue::text(field));
    assert(jsons_of(required@) =~= seq![Json::String(field@)]);
    let mut schema = JsonMap::new();
    schema.insert("type".to_owned(), JsonValue::text("object"));
    schema.insert("properties".to_owned(), JsonValue::Object(properties));
    schema.insert("required".to_owned(), JsonValue::Array(required));
    schema
}

/// The function tool that stands for a custom tool: it takes the raw input as
/// its only argument. None for a tool without a name or with a denied one.
pub open spec fn custom_chat_tool(tool: Json, denied: Set<Seq<char>>) -> Option<Json> {
    match tool.str_at("name"@) {
        Some(name) => if denied.contains(name) {
            None
        } else {
            Some(
                function_tool(
                    Map::<Seq<char>, Json>::empty().insert("name"@, Json::String(name)).insert(
                        "description"@,
                        Json::String(
                            tool.str_or("description"@, "Provide the raw custom tool input."@),
                        ),
                    ).insert(
                        "parameters"@,
                        Json::Object(
                            input_schema(argument_field(name)).insert(
                                "additionalProperties"@,
                                Json::Bool(false),
                            ),
                        ),
                    ),
                ),
            )
        },
        None => None,
    }
}

/// The function tool that stands for a custom tool.
pub fn convert_custom_tool(tool: &JsonValue, denied: &NameSet) -> (r: Option<JsonValue>)
    ensures
        match r {
            Some(v) => custom_chat_tool(tool@, denied@) == Some(v@),
            None => custom_chat_tool(tool@, denied@) is None,
        },
{
    let name = match tool.get_str("name") {
        Some(name) => name,
        None => {
            return None;
        },
    };
    if denied.contains(name) {
        return None;
    }
    let mut parameters = input_schema_value(custom_argument_field(name));
    parameters.insert("additionalProperties".to_owned(), JsonValue::Bool(false));
    let mut function = JsonMap::new();
    function.insert("name".to_owned(), JsonValue::text(name));
    function.insert(
        "description".to_owned(),
        JsonValue::text(tool.str_or("description", "Provide the raw custom tool input.")),
    );
    function.insert("parameters".to_owned(), JsonValue::Object(parameters));
    Some(function_tool_value(function))
}

/// What becomes of a tool inside a namespace.
pub open spec fn child_chat_tool(
    namespace: Seq<char>,
    child: Json,
    denied: Set<Seq<char>>,
) -> Option<Json> {
    if child.has_str("type"@, "function"@) {
        let name = match child.str_at("name"@) {
            Some(name) => Some(namespaced(namespace, name)),
            None => None,
        };
        if denies(denied, child, name) {
            None
        } else {
            Some(chat_tool(child, name))
        }
    } else if child.has_str("type"@, "custom"@) {
        custom_chat_tool(child, denied)
    } else {
        None
    }
}

/// `list` with `item` at its end, where there is one.
pub open spec fn pushed(list: Seq<Json>, item: Option<Json>) -> Seq<Json> {
    match item {
        Some(v) => list.push(v),
        None => list,
    }
}

/// What becomes of the tools inside a namespace.
pub open spec fn children_chat_tools(
    namespace: Seq<char>,
    children: Seq<Json>,
    denied: Set<Seq<char>>,
) -> Seq<Json>
    decreases children.len(),
{
    if children.len() == 0 {
        Seq::empty()
    } else {
        pushed(
            children_chat_tools(namespace, children.drop_last(), denied),
            child_chat_tool(namespace, children.last(), denied),
        )
    }
}

/// The Chat Completions tools for one tool: one for a function or a custom
/// tool, one for each such tool inside a namespace, none for anything else or
/// for a denied tool.
pub open spec fn expanded_tool(tool: Json, denied: Set<Seq<char>>) -> Seq<Json> {
    if tool.has_str("type"@, "function"@) {
        if denies(denied, tool, None) {
            Seq::empty()
        } else {
            seq![chat_tool(tool, None)]
        }
    } else if tool.has_str("type"@, "namespace"@) {
        children_chat_tools(tool.str_or("name"@, ""@), tool.items_at("tools"@), denied)
    } else if tool.has_str("type"@, "custom"@) {
        pushed(Seq::empty(), custom_chat_tool(tool, denied))
    } else {
        Seq::empty()
    }
}

/// The Chat Completions tools for a list of tools, in their order.
pub open spec fn chat_tools(tools: Seq<Json>, denied: Set<Seq<char>>) -> Seq<Json>
    decreases tools.len(),
{
    if tools.len() == 0 {
        Seq::empty()
    } else {
        chat_tools(tools.drop_last(), denied) + expanded_tool(tools.last(), denied)
    }
}

fn push_child_tools(
    out: &mut Vec<JsonValue>,
    namespace: &str,
    children: &Vec<JsonValue>,
    denied: &NameSet,
)
    ensures
        jsons_of(final(out)@) == jsons_of(old(out)@) + children_chat_tools(
            namespace@,
            jsons_of(children@),
            denied@,
        ),
{
    let ghost all = jsons_of(children@);
    let ghost start = jsons_of(out@);
    let mut i: usize = 0;
    assert(all.take(0) =~= Seq::empty());
    assert(start =~= start + children_chat_tools(namespace@, all.take(0), denied@));
    while i < children.len()
        invariant
            i <= children@.len(),
            all == jsons_of(children@),
            jsons_of(out@) == start + children_chat_tools(namespace@, all.take(i as int), denied@),
        decreases children.len() - i,
    {
        let child = &children[i];
        assert(all.take(i + 1).drop_last() =~= all.take(i as int));
        let ghost before = out@;
        let converted = if child.has_str("type", "function") {
            let name = match child.get_str("name") {
                Some(name) => Some(chat_function_name_for_namespace_tool(namespace, name)),
                None => None,
            };
            let name = match &name {
                Some(name) => Some(name.as_str()),
                None => None,
            };
            if tool_is_denied(child, name, denied) {
                None
            } else {
                Some(convert_tool_with_name(child, name))
            }
        } else if child.has_str("type", "custom") {
            convert_custom_tool(child, denied)
        } else {
            None
        };
        if let Some(tool) = converted {
            out.push(tool);
            assert(jsons_of(out@) =~= jsons_of(before).push(tool@));
        }
        assert(jsons_of(out@) =~= start + children_chat_tools(namespace@, all.take(i + 1), denied@));
        i = i + 1;
    }
    assert(all.take(i as int) =~= all);
}

/// Flattens Responses API tools into Chat Completions tools.
pub fn convert_tools_with_denylist(tools: &[JsonValue], denied: &NameSet) -> (r: Vec<JsonValue>)
    ensures
        jsons_of(r@) == chat_tools(jsons_of(tools@), denied@),
{
    let ghost all = jsons_of(tools@);
    let mut out: Vec<JsonValue> = Vec::new();
    let mut i: usize = 0;
    assert(all.take(0) =~= Seq::empty());
    assert(jsons_of(out@) =~= Seq::empty());
    while i < tools.len()
        invariant
            i <= tools@.len(),
            all == jsons_of(tools@),
            jsons_of(out@) == chat_tools(all.take(i as int), denied@),
        decreases tools.len() - i,
    {
        let tool = &tools[i];
        assert(all.take(i + 1).drop_last() =~= all.take(i as int));
        assert(all.take(i + 1).last() == tool@);
        let ghost before = jsons_of(out@);
        if tool.has_str("type", "function") {
            if !tool_is_denied(tool, None, denied) {
                out.push(convert_tool(tool));
            }
            assert(jsons_of(out@) =~= before + expanded_tool(tool@, denied@));
        } else if tool.has_str("type", "namespace") {
            let namespace = tool.str_or("name", "");
            if let Some(children) = tool.get_array("tools") {
                push_child_tools(&mut out, namespace, children, denied);
            }
            assert(jsons_of(out@) =~= before + expanded_tool(tool@, denied@));
        } else if tool.has_str("type", "custom") {
            if let Some(v) = convert_custom_tool(tool, denied) {
                out.push(v);
                assert(jsons_of(out@) =~= before.push(v@));
            }
            assert(jsons_of(out@) =~= before + expanded_tool(tool@, denied@));
        } else {
            assert(jsons_of(out@) =~= before + expanded_tool(tool@, denied@));
        }
        i = i + 1;
    }
    assert(all.take(i as int) =~= all);
    out
}

/// Flattens Responses API tools into Chat Completions tools, without those
/// that the environment denies.
///
/// A function is kept and gets its shape, a namespace is replaced by its
/// functions and custom tools, a custom tool becomes a function. Every other
/// kind (web search, image generation, ...) is dropped.
pub fn convert_tools(tools: &[JsonValue], env: &RelayEnv) -> (r: Vec<JsonValue>)
    ensures
        jsons_of(r@) == chat_tools(jsons_of(tools@), env.denied()),
{
    let denied = tool_denylist_from_env(env);
    convert_tools_with_denylist(tools, &denied)
}

/// Whether a tool is one that the upstream may get: a function, and not under
/// a denied name.
pub open spec fn is_forwarded(tool: Json, denied: Set<Seq<char>>) -> bool {
    &&& tool.has_str("type"@, "function"@)
    &&& function_name(tool) matches Some(name) ==> !denied.contains(name)
}

proof fn lemma_tool_keys_differ()
    ensures
        "type"@ != "function"@,
        "name"@ != "type"@,
        "name"@ != "description"@,
        "name"@ != "parameters"@,
{
    reveal_strlit("type");
    reveal_strlit("function");
    reveal_strlit("name");
    reveal_strlit("description");
    reveal_strlit("parameters");
    assert("type"@.len() == 4 && "function"@.len() == 8);
    assert("name"@[0] == 'n' && "type"@[0] == 't');
    assert("name"@.len() == 4 && "description"@.len() == 11 && "parameters"@.len() == 10);
}

/// The name of the Chat Completions form of a function tool: the name that it
/// is given, where it can take one, or else its own.
pub proof fn chat_tool_name(tool: Json, override_name: Option<Seq<char>>)
    requires
        tool.has_str("type"@, "function"@),
    ensures
        chat_tool(tool, override_name).has_str("type"@, "function"@),
        function_name(chat_tool(tool, override_name)) matches Some(name) ==> Some(name)
            == forwarded_name(tool, override_name),
        override_name is Some && (tool.get("function"@) matches Some(f) ==> f is Object)
            ==> function_name(chat_tool(tool, override_name)) == override_name,
{
    lemma_tool_keys_differ();
    if let Json::Object(m) = tool {
        if m.contains_key("function"@) {
            let after = chat_tool(tool, override_name);
            assert(after.get("type"@) == tool.get("type"@));
        } else {
            let function = flat_function(m, override_name);
            let after = function_tool(function);
            assert(after.str_at("type"@) == Some("function"@));
            assert(after.get("function"@) == Some(Json::Object(function)));
            assert(function_name(tool) is None);
        }
    }
}

proof fn lemma_custom_is_forwarded(tool: Json, denied: Set<Seq<char>>)
    ensures
        custom_chat_tool(tool, denied) matches Some(v) ==> is_forwarded(v, denied),
{
    lemma_tool_keys_differ();
    if let Some(v) = custom_chat_tool(tool, denied) {
        assert(v.str_at("type"@) == Some("function"@));
        assert(function_name(v) == tool.str_at("name"@));
    }
}

proof fn lemma_children_are_forwarded(
    namespace: Seq<char>,
    children: Seq<Json>,
    denied: Set<Seq<char>>,
    i: int,
)
    requires
        0 <= i < children_chat_tools(namespace, children, denied).len(),
    ensures
        is_forwarded(children_chat_tools(namespace, children, denied)[i], denied),
    decreases children.len(),
{
    let child = children.last();
    let before = children_chat_tools(namespace, children.drop_last(), denied);
    if i < before.len() {
        lemma_children_are_forwarded(namespace, children.drop_last(), denied, i);
    } else {
        lemma_custom_is_forwarded(child, denied);
        if child.has_str("type"@, "function"@) {
            match child.str_at("name"@) {
                Some(name) => chat_tool_name(child, Some(namespaced(namespace, name))),
                None => chat_tool_name(child, None),
            }
        }
    }
}

/// Only function tools reach the upstream, and none under a denied name.
pub proof fn denied_tools_are_left_out(tools: Seq<Json>, denied: Set<Seq<char>>, i: int)
    requires
        0 <= i < chat_tools(tools, denied).len(),
    ensures
        is_forwarded(chat_tools(tools, denied)[i], denied),
    decreases tools.len(),
{
    let tool = tools.last();
    let before = chat_tools(tools.drop_last(), denied);
    if i < before.len() {
        denied_tools_are_left_out(tools.drop_last(), denied, i);
    } else {
        let j = i - before.len();
        assert(chat_tools(tools, denied)[i] == expanded_tool(tool, denied)[j]);
        lemma_custom_is_forwarded(tool, denied);
        if tool.has_str("type"@, "function"@) {
            chat_tool_name(tool, None);
        } else if tool.has_str("type"@, "namespace"@) {
            lemma_children_are_forwarded(
                tool.str_or("name"@, ""@),
                tool.items_at("tools"@),
                denied,
                j,
            );
        }
    }
}

} // verus!
