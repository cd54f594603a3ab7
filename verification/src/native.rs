//! The payload for a strict Responses endpoint: only plain function tools with
//! short names, no schema references, no fields that the endpoint refuses.
use vstd::prelude::*;

use crate::ids::{bound_native_tool_name_value, bounded_name};
use crate::items::{
    is_orphan_output, item_is_orphan_output, normalize_opencode_go_input_item, normalized_item,
};
use crate::json::{Json, JsonValue, all_finite, jsons_of, lists_are_finite};
use crate::schema::{
    count_schema_refs, count_tool_schema_refs, ref_count, ref_sum, strip_tool_schema_refs,
    stripped_items,
};
use crate::tools::{
    argument_field, chat_function_name_for_namespace_tool, custom_argument_field, input_schema,
    input_schema_value, namespaced, opt_str, pushed,
};

verus! {

/// A tool under another name.
pub open spec fn renamed(tool: Json, name: Seq<char>) -> Json {
    match tool {
        Json::Object(m) => Json::Object(m.insert("name"@, Json::String(name))),
        _ => tool,
    }
}

/// A tool whose name, where it has one, is bounded.
pub open spec fn bounded_tool(tool: Json) -> Json {
    match tool.str_at("name"@) {
        Some(name) => renamed(tool, bounded_name(name)),
        None => tool,
    }
}

/// A tool whose name, where it has one, is the bounded flat name in a namespace.
pub open spec fn prefixed_tool(tool: Json, namespace: Seq<char>) -> Json {
    match tool.str_at("name"@) {
        Some(name) => renamed(tool, bounded_name(namespaced(namespace, name))),
        None => tool,
    }
}

fn rename(tool: &mut JsonValue, name: String)
    ensures
        final(tool)@ == renamed(old(tool)@, name@),
{
    let mut taken = JsonValue::Null;
    std::mem::swap(&mut taken, tool);
    match taken {
        JsonValue::Object(mut m) => {
            m.insert("name".to_owned(), JsonValue::String(name));
            *tool = JsonValue::Object(m);
        },
        other => {
            *tool = other;
        },
    }
}

/// Bounds the name of a tool, where it has one.
pub fn bound_native_tool_name(tool: &mut JsonValue)
    ensures
        final(tool)@ == bounded_tool(old(tool)@),
{
    let name = match tool.get_str("name") {
        Some(name) => bound_native_tool_name_value(name),
        None => {
            return ;
        },
    };
    rename(tool, name);
}

/// Gives a tool its bounded flat name in a namespace, where it has a name.
pub fn prefix_native_tool_name(tool: &mut JsonValue, namespace: &str)
    ensures
        final(tool)@ == prefixed_tool(old(tool)@, namespace@),
{
    let name = match tool.get_str("name") {
        Some(name) => {
            let full = chat_function_name_for_namespace_tool(namespace, name);
            bound_native_tool_name_value(full.as_str())
        },
        None => {
            return ;
        },
    };
    rename(tool, name);
}

/// The members of the function that stands for a custom tool with this name:
/// without the format of its input, and with parameters.
pub open spec fn custom_function_members(
    tool: Map<Seq<char>, Json>,
    name: Seq<char>,
    namespace: Option<Seq<char>>,
) -> Map<Seq<char>, Json> {
    let full = match namespace {
        Some(namespace) => namespaced(namespace, name),
        None => name,
    };
    let function = tool.insert("type"@, Json::String("function"@)).insert(
        "name"@,
        Json::String(bounded_name(full)),
    ).remove("format"@).remove("input_format"@);
    if function.contains_key("parameters"@) {
        function
    } else {
        function.insert("parameters"@, Json::Object(input_schema(argument_field(name))))
    }
}

/// The function that stands for a custom tool; none for one without a name.
pub open spec fn custom_function(tool: Json, namespace: Option<Seq<char>>) -> Option<Json> {
    match (tool, tool.str_at("name"@)) {
        (Json::Object(m), Some(name)) => Some(
            Json::Object(custom_function_members(m, name, namespace)),
        ),
        _ => None,
    }
}

/// The function that stands for a custom tool; none for one without a name.
pub fn custom_tool_as_function(tool: JsonValue, namespace: Option<&str>) -> (r: Option<JsonValue>)
    ensures
        match r {
            Some(v) => custom_function(tool@, opt_str(namespace)) == Some(v@),
            None => custom_function(tool@, opt_str(namespace)) is None,
        },
{
    let name = match tool.get_str("name") {
        Some(name) => name.to_owned(),
        None => {
            return None;
        },
    };
    match tool {
        JsonValue::Object(mut m) => {
            let full = match namespace {
                Some(namespace) => chat_function_name_for_namespace_tool(namespace, name.as_str()),
                None => name.clone(),
            };
            m.insert("type".to_owned(), JsonValue::text("function"));
            m.insert(
                "name".to_owned(),
                JsonValue::String(bound_native_tool_name_value(full.as_str())),
            );
            m.remove("format");
            m.remove("input_format");
            if !m.contains_key("parameters") {
                let schema = input_schema_value(custom_argument_field(name.as_str()));
                m.insert("parameters".to_owned(), JsonValue::Object(schema));
            }
            Some(JsonValue::Object(m))
        },
        _ => None,
    }
}

/// What becomes of a tool inside a namespace.
pub open spec fn native_child(namespace: Seq<char>, child: Json) -> Option<Json> {
    if child.has_str("type"@, "function"@) {
        Some(prefixed_tool(child, namespace))
    } else if child.has_str("type"@, "custom"@) {
        custom_function(child, Some(namespace))
    } else {
        None
    }
}

/// What becomes of the tools inside a namespace.
pub open spec fn native_children(namespace: Seq<char>, children: Seq<Json>) -> Seq<Json>
    decreases children.len(),
{
    if children.len() == 0 {
        Seq::empty()
    } else {
        pushed(
            native_children(namespace, children.drop_last()),
            native_child(namespace, children.last()),
        )
    }
}

/// What becomes of a tool: a function with a bounded name, a web search as it
/// is, a function for a custom tool, the functions inside a namespace, nothing
/// for anything else.
pub open spec fn native_tool(tool: Json) -> Seq<Json> {
    if tool.has_str("type"@, "function"@) {
        seq![bounded_tool(tool)]
    } else if tool.has_str("type"@, "web_search_preview"@) {
        seq![tool]
    } else if tool.has_str("type"@, "custom"@) {
        pushed(Seq::empty(), custom_function(tool, None))
    } else if tool.has_str("type"@, "namespace"@) {
        native_children(tool.str_or("name"@, ""@), tool.items_at("tools"@))
    } else {
        Seq::empty()
    }
}

/// What becomes of a list of tools.
pub open spec fn native_tools(tools: Seq<Json>) -> Seq<Json>
    decreases tools.len(),
{
    if tools.len() == 0 {
        Seq::empty()
    } else {
        native_tools(tools.drop_last()) + native_tool(tools.last())
    }
}

fn push_native_children(out: &mut Vec<JsonValue>, namespace: &str, children: &Vec<JsonValue>)
    ensures
        jsons_of(final(out)@) == jsons_of(old(out)@) + native_children(
            namespace@,
            jsons_of(children@),
        ),
{
    let ghost all = jsons_of(children@);
    let ghost start = jsons_of(out@);
    let mut i: usize = 0;
    assert(all.take(0) =~= Seq::empty());
    assert(start =~= start + native_children(namespace@, all.take(0)));
    while i < children.len()
        invariant
            i <= children@.len(),
            all == jsons_of(children@),
            jsons_of(out@) == start + native_children(namespace@, all.take(i as int)),
        decreases children.len() - i,
    {
        let child = &children[i];
        let ghost before = jsons_of(out@);
        assert(all.take(i + 1).drop_last() =~= all.take(i as int));
        if child.has_str("type", "function") {
            let mut function = child.clone();
            prefix_native_tool_name(&mut function, namespace);
            out.push(function);
            assert(jsons_of(out@) =~= before.push(function@));
        } else if child.has_str("type", "custom") {
            if let Some(function) = custom_tool_as_function(child.clone(), Some(namespace)) {
                out.push(function);
                assert(jsons_of(out@) =~= before.push(function@));
            }
        }
        assert(jsons_of(out@) =~= start + native_children(namespace@, all.take(i + 1)));
        i = i + 1;
    }
    assert(all.take(i as int) =~= all);
}

/// Turns a list of tools into plain function tools with short names.
pub fn normalize_opencode_go_tools(tools: &mut Vec<JsonValue>)
    ensures
        jsons_of(final(tools)@) == native_tools(jsons_of(old(tools)@)),
{
    let ghost all = jsons_of(tools@);
    let mut given: Vec<JsonValue> = Vec::new();
    std::mem::swap(&mut given, tools);
    let mut out: Vec<JsonValue> = Vec::new();
    assert(all.take(0) =~= Seq::empty());
    assert(jsons_of(out@) =~= Seq::empty());
    for tool in it: given
        invariant
            all == jsons_of(it.seq()),
            jsons_of(out@) == native_tools(all.take(it.index() as int)),
    {
        let ghost i = it.index() as int;
        let ghost before = jsons_of(out@);
        let ghost model = tool@;
        assert(all.take(i + 1).drop_last() =~= all.take(i));
        assert(all.take(i + 1).last() == model);
        if tool.has_str("type", "function") {
            let mut tool = tool;
            bound_native_tool_name(&mut tool);
            out.push(tool);
        } else if tool.has_str("type", "web_search_preview") {
            out.push(tool);
        } else if tool.has_str("type", "custom") {
            if let Some(function) = custom_tool_as_function(tool, None) {
                out.push(function);
            }
        } else if tool.has_str("type", "namespace") {
            if let Some(children) = tool.get_array("tools") {
                push_native_children(&mut out, tool.str_or("name", ""), children);
            }
        }
        assert(jsons_of(out@) =~= before + native_tool(model));
    }
    assert(all.take(all.len() as int) =~= all);
    *tools = out;
}

/// Whether a tool has a field that only a web search may have.
pub open spec fn has_unsupported_field(tool: Json) -> bool {
    !tool.has_str("type"@, "web_search_preview"@) && tool.get("search_content_types"@) is Some
}

/// A tool without the field that only a web search may have.
pub open spec fn without_unsupported_field(tool: Json) -> Json {
    match tool {
        Json::Object(m) => if has_unsupported_field(tool) {
            Json::Object(m.remove("search_content_types"@))
        } else {
            tool
        },
        _ => tool,
    }
}

/// Tools without the fields that only a web search may have.
pub open spec fn without_unsupported_fields(tools: Seq<Json>) -> Seq<Json> {
    tools.map_values(|tool: Json| without_unsupported_field(tool))
}

/// How many tools have a field that only a web search may have.
pub open spec fn unsupported_fields(tools: Seq<Json>) -> nat
    decreases tools.len(),
{
    if tools.len() == 0 {
        0
    } else if has_unsupported_field(tools.last()) {
        unsupported_fields(tools.drop_last()) + 1
    } else {
        unsupported_fields(tools.drop_last())
    }
}

fn strip_unsupported_field(tool: &mut JsonValue) -> (found: bool)
    ensures
        final(tool)@ == without_unsupported_field(old(tool)@),
        found == has_unsupported_field(old(tool)@),
{
    if tool.has_str("type", "web_search_preview") {
        return false;
    }
    let mut taken = JsonValue::Null;
    std::mem::swap(&mut taken, tool);
    match taken {
        JsonValue::Object(mut m) => {
            let ghost members = m@;
            let found = m.remove("search_content_types").is_some();
            *tool = JsonValue::Object(m);
            assert(!found ==> m@ =~= members);
            found
        },
        other => {
            *tool = other;
            false
        },
    }
}

/// Takes the fields that only a web search may have out of other tools, and
/// counts them.
pub fn strip_opencode_go_unsupported_tool_fields(tools: &mut [JsonValue]) -> (n: usize)
    ensures
        jsons_of(final(tools)@) == without_unsupported_fields(jsons_of(old(tools)@)),
        n == unsupported_fields(jsons_of(old(tools)@)),
{
    let ghost all = jsons_of(tools@);
    let mut n: usize = 0;
    let mut i: usize = 0;
    while i < tools.len()
        invariant
            all == jsons_of(old(tools)@),
            n <= i <= tools@.len() == all.len(),
            n == unsupported_fields(all.take(i as int)),
            forall|j: int|
                0 <= j < i ==> (#[trigger] tools@[j])@ == without_unsupported_field(all[j]),
            forall|j: int| i <= j < all.len() ==> (#[trigger] tools@[j])@ == all[j],
        decreases tools.len() - i,
    {
        let mut tool = JsonValue::Null;
        std::mem::swap(&mut tool, &mut tools[i]);
        assert(all.take(i + 1).drop_last() =~= all.take(i as int));
        if strip_unsupported_field(&mut tool) {
            n = n + 1;
        }
        tools[i] = tool;
        i = i + 1;
    }
    assert(all.take(i as int) =~= all);
    assert(jsons_of(tools@) =~= without_unsupported_fields(all));
    n
}

/// How many of some input items are outputs that belong to no call.
pub open spec fn orphan_outputs(items: Seq<Json>) -> nat
    decreases items.len(),
{
    if items.len() == 0 {
        0
    } else if is_orphan_output(items.last()) {
        orphan_outputs(items.drop_last()) + 1
    } else {
        orphan_outputs(items.drop_last())
    }
}

/// The normalized forms of some input items.
pub open spec fn normalized_items(items: Seq<Json>) -> Seq<Json> {
    items.map_values(|item: Json| normalized_item(item))
}

fn normalize_items(items: &mut Vec<JsonValue>) -> (n: usize)
    ensures
        jsons_of(final(items)@) == normalized_items(jsons_of(old(items)@)),
        n == orphan_outputs(jsons_of(old(items)@)),
{
    let ghost all = jsons_of(items@);
    let mut n: usize = 0;
    let mut i: usize = 0;
    while i < items.len()
        invariant
            all == jsons_of(old(items)@),
            n <= i <= items@.len() == all.len(),
            n == orphan_outputs(all.take(i as int)),
            forall|j: int| 0 <= j < i ==> (#[trigger] items@[j])@ == normalized_item(all[j]),
            forall|j: int| i <= j < all.len() ==> (#[trigger] items@[j])@ == all[j],
        decreases items.len() - i,
    {
        assert(all.take(i + 1).drop_last() =~= all.take(i as int));
        if item_is_orphan_output(&items[i]) {
            n = n + 1;
        }
        let normalized = normalize_opencode_go_input_item(&items[i]);
        items[i] = normalized;
        i = i + 1;
    }
    assert(all.take(i as int) =~= all);
    assert(jsons_of(items@) =~= normalized_items(all));
    n
}

/// The tools of a payload, as a strict endpoint takes them.
pub open spec fn accepted_tools(tools: Seq<Json>) -> Seq<Json> {
    without_unsupported_fields(stripped_items(native_tools(tools)))
}

/// Whether a payload asks for no reasoning.
pub open spec fn asks_for_no_reasoning(payload: Json) -> bool {
    match payload.get("reasoning"@) {
        Some(reasoning) => reasoning.has_str("effort"@, "none"@),
        None => false,
    }
}

/// `m` with other items under a key, where an array stands there.
pub open spec fn with_items(
    m: Map<Seq<char>, Json>,
    key: Seq<char>,
    change: spec_fn(Seq<Json>) -> Seq<Json>,
) -> Map<Seq<char>, Json> {
    match Json::Object(m).array_at(key) {
        Some(items) => m.insert(key, Json::Array(change(items))),
        None => m,
    }
}

/// A payload as a strict endpoint takes it.
pub open spec fn native_payload(payload: Json) -> Json {
    match payload {
        Json::Object(m) => {
            let with_input = with_items(m, "input"@, |items: Seq<Json>| normalized_items(items));
            let with_tools = with_items(
                with_input,
                "tools"@,
                |tools: Seq<Json>| accepted_tools(tools),
            );
            if asks_for_no_reasoning(payload) {
                Json::Object(with_tools.remove("reasoning"@))
            } else {
                Json::Object(with_tools)
            }
        },
        _ => payload,
    }
}

/// What normalizing a payload counts: the outputs that belong to no call, the
/// schema references, and the tool fields that only a web search may have.
pub open spec fn native_changes(payload: Json) -> (nat, nat, nat) {
    let tools = native_tools(payload.items_at("tools"@));
    (
        orphan_outputs(payload.items_at("input"@)),
        ref_sum(tools),
        unsupported_fields(stripped_items(tools)),
    )
}

/// The number of `$ref` nodes in the tools of a list and of the namespaces in it.
pub open spec fn tool_refs(tools: Seq<Json>) -> nat
    decreases tools.len(),
{
    if tools.len() == 0 {
        0
    } else {
        tool_refs(tools.drop_last()) + ref_count(tools.last()) + ref_sum(
            tools.last().items_at("tools"@),
        )
    }
}

/// Whether the machine can count the `$ref` nodes in the tools of a payload.
pub open spec fn countable(payload: Json) -> bool {
    tool_refs(payload.items_at("tools"@)) <= usize::MAX
}

proof fn lemma_schema_has_no_refs(name: Seq<char>)
    ensures
        ref_count(Json::Object(input_schema(argument_field(name)))) == 0,
{
    reveal_strlit("$ref");
    reveal_strlit("type");
    reveal_strlit("properties");
    reveal_strlit("required");
    reveal_strlit("patch");
    reveal_strlit("input");
    let field = argument_field(name);
    assert("$ref"@[0] == '$' && "$ref"@.len() == 4);
    assert("type"@[0] == 't' && "properties"@[0] == 'p' && "required"@[0] == 'r');
    assert("patch"@.len() == 5 && "input"@.len() == 5);
    let string_schema = Map::<Seq<char>, Json>::empty().insert("type"@, Json::String("string"@));
    crate::schema::lemma_no_refs_in_members(string_schema);
    let properties = Map::<Seq<char>, Json>::empty().insert(field, Json::Object(string_schema));
    crate::schema::lemma_no_refs_in_members(properties);
    let required = seq![Json::String(field)];
    assert(ref_sum(required.drop_first()) == 0);
    assert(ref_count(required[0]) == 0);
    crate::schema::lemma_no_refs_in_members(input_schema(field));
}

proof fn lemma_no_ref_keys()
    ensures
        "name"@ != "$ref"@,
        "type"@ != "$ref"@,
        "format"@ != "$ref"@,
        "input_format"@ != "$ref"@,
        "parameters"@ != "$ref"@,
{
    reveal_strlit("$ref");
    reveal_strlit("name");
    reveal_strlit("type");
    reveal_strlit("format");
    reveal_strlit("input_format");
    reveal_strlit("parameters");
    assert("$ref"@[0] == '$');
    assert("name"@[0] == 'n' && "type"@[0] == 't' && "format"@[0] == 'f');
    assert("input_format"@[0] == 'i' && "parameters"@[0] == 'p');
}

proof fn lemma_renamed_refs(tool: Json, name: Seq<char>)
    requires
        tool.finite(),
    ensures
        ref_count(renamed(tool, name)) <= ref_count(tool),
{
    lemma_no_ref_keys();
    if let Json::Object(m) = tool {
        crate::schema::lemma_ref_count_of_changed(m, "name"@, Json::String(name));
    }
}

proof fn lemma_custom_function_refs(tool: Json, namespace: Option<Seq<char>>)
    requires
        tool.finite(),
    ensures
        custom_function(tool, namespace) matches Some(function) ==> ref_count(function)
            <= ref_count(tool),
{
    lemma_no_ref_keys();
    if let (Json::Object(m), Some(name)) = (tool, tool.str_at("name"@)) {
        let full = match namespace {
            Some(namespace) => namespaced(namespace, name),
            None => name,
        };
        let kind = Json::String("function"@);
        let short = Json::String(bounded_name(full));
        let a = m.insert("type"@, kind);
        let b = a.insert("name"@, short);
        let c = b.remove("format"@);
        let d = c.remove("input_format"@);
        crate::schema::lemma_ref_count_of_changed(m, "type"@, kind);
        crate::schema::lemma_ref_count_of_changed(a, "name"@, short);
        crate::schema::lemma_ref_count_of_changed(b, "format"@, Json::Null);
        crate::schema::lemma_ref_count_of_changed(c, "input_format"@, Json::Null);
        lemma_schema_has_no_refs(name);
        crate::schema::lemma_ref_count_of_changed(
            d,
            "parameters"@,
            Json::Object(input_schema(argument_field(name))),
        );
    }
}

proof fn lemma_pushed_refs(list: Seq<Json>, item: Option<Json>)
    ensures
        ref_sum(pushed(list, item)) == ref_sum(list) + match item {
            Some(v) => ref_count(v),
            None => 0,
        },
{
    if let Some(v) = item {
        assert(list.push(v) =~= list + seq![v]);
        crate::schema::lemma_ref_sum_of_both(list, seq![v]);
        lemma_one_ref_sum(v);
    }
}

proof fn lemma_one_ref_sum(v: Json)
    ensures
        ref_sum(seq![v]) == ref_count(v),
{
    let one = seq![v];
    assert(ref_sum(one.drop_first()) == 0);
    assert(one[0] == v);
}

proof fn lemma_children_refs(namespace: Seq<char>, children: Seq<Json>)
    requires
        all_finite(children),
    ensures
        ref_sum(native_children(namespace, children)) <= ref_sum(children),
    decreases children.len(),
{
    if children.len() > 0 {
        let rest = children.drop_last();
        let child = children.last();
        assert(children[children.len() - 1].finite());
        assert forall|i: int| 0 <= i < rest.len() implies (#[trigger] rest[i]).finite() by {
            assert(rest[i] == children[i]);
        }
        lemma_children_refs(namespace, rest);
        assert(children =~= rest + seq![child]);
        crate::schema::lemma_ref_sum_of_both(rest, seq![child]);
        lemma_one_ref_sum(child);
        lemma_pushed_refs(native_children(namespace, rest), native_child(namespace, child));
        lemma_custom_function_refs(child, Some(namespace));
        if let Some(name) = child.str_at("name"@) {
            lemma_renamed_refs(child, bounded_name(namespaced(namespace, name)));
        }
    }
}

proof fn lemma_tool_refs(tool: Json)
    requires
        tool.finite(),
    ensures
        ref_sum(native_tool(tool)) <= ref_count(tool) + ref_sum(tool.items_at("tools"@)),
{
    lemma_one_ref_sum(tool);
    lemma_one_ref_sum(bounded_tool(tool));
    if let Some(name) = tool.str_at("name"@) {
        lemma_renamed_refs(tool, bounded_name(name));
    }
    lemma_pushed_refs(Seq::empty(), custom_function(tool, None));
    lemma_custom_function_refs(tool, None);
    let children = tool.items_at("tools"@);
    assert forall|i: int| 0 <= i < children.len() implies (#[trigger] children[i]).finite() by {
        assert(tool.get("tools"@) == Some(Json::Array(children)));
        assert(Json::Array(children).finite());
    }
    lemma_children_refs(tool.str_or("name"@, ""@), children);
}

proof fn lemma_tools_refs(tools: Seq<Json>)
    requires
        all_finite(tools),
    ensures
        ref_sum(native_tools(tools)) <= tool_refs(tools),
    decreases tools.len(),
{
    if tools.len() > 0 {
        let rest = tools.drop_last();
        assert(tools[tools.len() - 1].finite());
        assert forall|i: int| 0 <= i < rest.len() implies (#[trigger] rest[i]).finite() by {
            assert(rest[i] == tools[i]);
        }
        lemma_tools_refs(rest);
        lemma_tool_refs(tools.last());
        crate::schema::lemma_ref_sum_of_both(native_tools(rest), native_tool(tools.last()));
    }
}

fn accept_tools(tools: &mut Vec<JsonValue>) -> (n: (usize, usize))
    requires
        tool_refs(jsons_of(old(tools)@)) <= usize::MAX,
    ensures
        jsons_of(final(tools)@) == accepted_tools(jsons_of(old(tools)@)),
        n.0 == ref_sum(native_tools(jsons_of(old(tools)@))),
        n.1 == unsupported_fields(stripped_items(native_tools(jsons_of(old(tools)@)))),
{
    proof {
        lists_are_finite(tools@);
        lemma_tools_refs(jsons_of(tools@));
    }
    normalize_opencode_go_tools(tools);
    let refs = strip_tool_schema_refs(tools.as_mut_slice());
    let fields = strip_opencode_go_unsupported_tool_fields(tools.as_mut_slice());
    (refs, fields)
}

proof fn lemma_payload_keys_differ()
    ensures
        "input"@ != "tools"@,
        "input"@ != "reasoning"@,
        "tools"@ != "reasoning"@,
{
    reveal_strlit("input");
    reveal_strlit("tools");
    reveal_strlit("reasoning");
    assert("input"@[0] == 'i' && "tools"@[0] == 't' && "reasoning"@[0] == 'r');
}

/// Normalizes a Responses payload before it goes to a strict endpoint. Returns
/// how many orphan outputs were normalized, how many schema references were
/// stripped, and how many unsupported tool fields were stripped.
pub fn normalize_opencode_go_responses_payload(payload: &mut JsonValue) -> (n: (
    usize,
    usize,
    usize,
))
    requires
        countable(old(payload)@),
    ensures
        final(payload)@ == native_payload(old(payload)@),
        (n.0 as nat, n.1 as nat, n.2 as nat) == native_changes(old(payload)@),
{
    proof {
        lemma_payload_keys_differ();
    }
    let no_reasoning = match payload.get("reasoning") {
        Some(reasoning) => reasoning.has_str("effort", "none"),
        None => false,
    };
    let mut taken = JsonValue::Null;
    std::mem::swap(&mut taken, payload);
    match taken {
        JsonValue::Object(mut m) => {
            let ghost members = m@;
            let mut outputs: usize = 0;
            let mut refs: usize = 0;
            let mut fields: usize = 0;
            match m.remove("input") {
                Some(JsonValue::Array(mut items)) => {
                    outputs = normalize_items(&mut items);
                    m.insert("input".to_owned(), JsonValue::Array(items));
                },
                Some(other) => {
                    m.insert("input".to_owned(), other);
                },
                None => {},
            }
            assert(m@ =~= with_items(
                members,
                "input"@,
                |items: Seq<Json>| normalized_items(items),
            ));
            let ghost with_input = m@;
            assert(Json::Object(with_input).get("tools"@) == Json::Object(members).get("tools"@));
            match m.remove("tools") {
                Some(JsonValue::Array(mut tools)) => {
                    let counts = accept_tools(&mut tools);
                    refs = counts.0;
                    fields = counts.1;
                    m.insert("tools".to_owned(), JsonValue::Array(tools));
                },
                Some(other) => {
                    m.insert("tools".to_owned(), other);
                },
                None => {},
            }
            assert(m@ =~= with_items(
                with_input,
                "tools"@,
                |tools: Seq<Json>| accepted_tools(tools),
            ));
            if no_reasoning {
                m.remove("reasoning");
            }
            *payload = JsonValue::Object(m);
            (outputs, refs, fields)
        },
        other => {
            *payload = other;
            (0, 0, 0)
        },
    }
}

proof fn lemma_tool_refs_grow(tools: Seq<Json>, n: int)
    requires
        0 <= n <= tools.len(),
    ensures
        tool_refs(tools.take(n)) <= tool_refs(tools),
    decreases tools.len(),
{
    if n < tools.len() {
        assert(tools.drop_last().take(n) =~= tools.take(n));
        lemma_tool_refs_grow(tools.drop_last(), n);
    } else {
        assert(tools.take(n) =~= tools);
    }
}

fn tools_are_countable(tools: &Vec<JsonValue>) -> (r: bool)
    ensures
        r == (tool_refs(jsons_of(tools@)) <= usize::MAX),
{
    let ghost all = jsons_of(tools@);
    let mut refs: usize = 0;
    let mut i: usize = 0;
    assert(all.take(0) =~= Seq::empty());
    while i < tools.len()
        invariant
            i <= tools@.len(),
            all == jsons_of(tools@),
            refs == tool_refs(all.take(i as int)),
        decreases tools.len() - i,
    {
        let tool = &tools[i];
        proof {
            assert(all.take(i + 1).drop_last() =~= all.take(i as int));
            lemma_tool_refs_grow(all, i + 1);
        }
        let inner = match tool.get_array("tools") {
            Some(children) => count_tool_schema_refs(children.as_slice()),
            None => Some(0),
        };
        match (count_schema_refs(tool), inner) {
            (Some(own), Some(inner)) => {
                if own > usize::MAX - refs || inner > usize::MAX - refs - own {
                    return false;
                }
                refs = refs + own + inner;
            },
            _ => {
                return false;
            },
        }
        i = i + 1;
    }
    assert(all.take(i as int) =~= all);
    true
}

/// Normalizes a Responses payload where the machine can count the `$ref` nodes
/// in its tools; else leaves it as it is.
pub fn try_normalize_opencode_go_responses_payload(payload: &mut JsonValue) -> (r: Option<
    (usize, usize, usize),
>)
    ensures
        match r {
            Some(n) => {
                &&& final(payload)@ == native_payload(old(payload)@)
                &&& (n.0 as nat, n.1 as nat, n.2 as nat) == native_changes(old(payload)@)
                &&& countable(old(payload)@)
            },
            None => final(payload)@ == old(payload)@ && !countable(old(payload)@),
        },
{
    let fits = match payload.get_array("tools") {
        Some(tools) => tools_are_countable(tools),
        None => true,
    };
    if !fits {
        return None;
    }
    Some(normalize_opencode_go_responses_payload(payload))
}

/// Whether a strict endpoint takes a tool: a web search, or a function whose
/// name, where it has one, has at most sixty-four characters.
pub open spec fn is_native(tool: Json) -> bool {
    ||| tool.has_str("type"@, "web_search_preview"@)
    ||| tool.has_str("type"@, "function"@) && (tool.str_at("name"@) matches Some(name) ==> name.len()
        <= 64)
}

proof fn lemma_tool_keys_differ()
    ensures
        "name"@ != "type"@,
        "name"@ != "format"@,
        "name"@ != "input_format"@,
        "name"@ != "parameters"@,
        "type"@ != "format"@,
        "type"@ != "input_format"@,
        "type"@ != "parameters"@,
{
    reveal_strlit("name");
    reveal_strlit("type");
    reveal_strlit("format");
    reveal_strlit("input_format");
    reveal_strlit("parameters");
    assert("name"@[0] == 'n' && "type"@[0] == 't' && "format"@[0] == 'f');
    assert("input_format"@[0] == 'i' && "parameters"@[0] == 'p');
}

proof fn lemma_renamed_is_native(tool: Json, name: Seq<char>)
    requires
        tool.has_str("type"@, "function"@),
    ensures
        is_native(renamed(tool, bounded_name(name))),
        tool.str_at("name"@) is None ==> is_native(tool),
{
    lemma_tool_keys_differ();
    crate::ids::bounded_names_are_short(name);
    let after = renamed(tool, bounded_name(name));
    assert(after.get("type"@) == tool.get("type"@));
    assert(after.str_at("name"@) == Some(bounded_name(name)));
}

proof fn lemma_custom_function_is_native(tool: Json, namespace: Option<Seq<char>>)
    ensures
        custom_function(tool, namespace) matches Some(function) ==> is_native(function),
{
    lemma_tool_keys_differ();
    if let (Json::Object(m), Some(name)) = (tool, tool.str_at("name"@)) {
        let full = match namespace {
            Some(namespace) => namespaced(namespace, name),
            None => name,
        };
        crate::ids::bounded_names_are_short(full);
        let function = Json::Object(custom_function_members(m, name, namespace));
        assert(function.str_at("type"@) == Some("function"@));
        assert(function.str_at("name"@) == Some(bounded_name(full)));
    }
}

proof fn lemma_native_children(namespace: Seq<char>, children: Seq<Json>, i: int)
    requires
        0 <= i < native_children(namespace, children).len(),
    ensures
        is_native(native_children(namespace, children)[i]),
    decreases children.len(),
{
    let child = children.last();
    let before = native_children(namespace, children.drop_last());
    if i < before.len() {
        lemma_native_children(namespace, children.drop_last(), i);
    } else {
        lemma_custom_function_is_native(child, Some(namespace));
        if child.has_str("type"@, "function"@) {
            match child.str_at("name"@) {
                Some(name) => lemma_renamed_is_native(child, namespaced(namespace, name)),
                None => lemma_renamed_is_native(child, namespace),
            }
        }
    }
}

/// Every tool that is left is one that a strict endpoint takes: a web search,
/// or a function with a short name.
pub proof fn native_tools_are_native(tools: Seq<Json>, i: int)
    requires
        0 <= i < native_tools(tools).len(),
    ensures
        is_native(native_tools(tools)[i]),
    decreases tools.len(),
{
    let tool = tools.last();
    let before = native_tools(tools.drop_last());
    if i < before.len() {
        native_tools_are_native(tools.drop_last(), i);
    } else {
        let j = i - before.len();
        assert(native_tools(tools)[i] == native_tool(tool)[j]);
        lemma_custom_function_is_native(tool, None);
        if tool.has_str("type"@, "function"@) {
            match tool.str_at("name"@) {
                Some(name) => lemma_renamed_is_native(tool, name),
                None => lemma_renamed_is_native(tool, Seq::empty()),
            }
        } else if tool.has_str("type"@, "namespace"@) && !tool.has_str("type"@, "custom"@)
            && !tool.has_str("type"@, "web_search_preview"@) {
            lemma_native_children(tool.str_or("name"@, ""@), tool.items_at("tools"@), j);
        }
    }
}

proof fn lemma_native_child_is_finite(namespace: Seq<char>, child: Json)
    requires
        child.finite(),
    ensures
        bounded_tool(child).finite(),
        prefixed_tool(child, namespace).finite(),
        custom_function(child, None) matches Some(function) ==> function.finite(),
        custom_function(child, Some(namespace)) matches Some(function) ==> function.finite(),
{
    if let (Json::Object(m), Some(name)) = (child, child.str_at("name"@)) {
        let field = argument_field(name);
        assert(Json::String("string"@).finite());
        assert(Json::String("object"@).finite());
        assert(Json::String(field).finite());
        assert(Json::String("function"@).finite());
        assert(Json::String(bounded_name(name)).finite());
        assert(Json::String(bounded_name(namespaced(namespace, name))).finite());
        let string_schema = Json::Object(
            Map::<Seq<char>, Json>::empty().insert("type"@, Json::String("string"@)),
        );
        assert(string_schema.finite());
        let properties = Json::Object(Map::<Seq<char>, Json>::empty().insert(field, string_schema));
        assert(properties.finite());
        assert(Json::Array(seq![Json::String(field)]).finite());
        let schema = Json::Object(input_schema(field));
        assert(schema.finite());
        let whole = custom_function_members(m, name, None);
        let inner = custom_function_members(m, name, Some(namespace));
        assert(forall|k: Seq<char>| #[trigger] m.contains_key(k) ==> m[k].finite());
        assert(Json::Object(whole).finite());
        assert(Json::Object(inner).finite());
        assert(Json::Object(m.insert("name"@, Json::String(bounded_name(name)))).finite());
        assert(Json::Object(
            m.insert("name"@, Json::String(bounded_name(namespaced(namespace, name)))),
        ).finite());
    }
}

proof fn lemma_native_children_are_finite(namespace: Seq<char>, children: Seq<Json>)
    requires
        all_finite(children),
    ensures
        all_finite(native_children(namespace, children)),
    decreases children.len(),
{
    if children.len() > 0 {
        let rest = children.drop_last();
        assert(all_finite(rest)) by {
            assert forall|i: int| 0 <= i < rest.len() implies (#[trigger] rest[i]).finite() by {
                assert(rest[i] == children[i]);
            }
        }
        lemma_native_children_are_finite(namespace, rest);
        assert(children[children.len() - 1].finite());
        lemma_native_child_is_finite(namespace, children.last());
    }
}

proof fn lemma_native_tools_are_finite(tools: Seq<Json>)
    requires
        all_finite(tools),
    ensures
        all_finite(native_tools(tools)),
    decreases tools.len(),
{
    if tools.len() > 0 {
        let rest = tools.drop_last();
        let tool = tools.last();
        assert(all_finite(rest)) by {
            assert forall|i: int| 0 <= i < rest.len() implies (#[trigger] rest[i]).finite() by {
                assert(rest[i] == tools[i]);
            }
        }
        lemma_native_tools_are_finite(rest);
        assert(tools[tools.len() - 1].finite());
        lemma_native_child_is_finite(Seq::empty(), tool);
        let children = tool.items_at("tools"@);
        assert(all_finite(children)) by {
            if tool.array_at("tools"@) is Some {
                assert(Json::Array(children).finite());
            }
        }
        lemma_native_children_are_finite(tool.str_or("name"@, ""@), children);
    }
}

/// The tools of a normalized payload have no schema references left, and no
/// fields that only a web search may have.
pub proof fn accepted_tools_are_clean(tools: Seq<Json>, i: int)
    requires
        all_finite(tools),
        0 <= i < accepted_tools(tools).len(),
    ensures
        ref_count(accepted_tools(tools)[i]) == 0,
        !has_unsupported_field(accepted_tools(tools)[i]),
{
    reveal_strlit("$ref");
    reveal_strlit("search_content_types");
    reveal_strlit("type");
    assert("search_content_types"@.len() == 20 && "$ref"@.len() == 4 && "type"@.len() == 4);
    lemma_native_tools_are_finite(tools);
    let native = native_tools(tools);
    let tool = crate::schema::stripped(native[i]);
    assert(native[i].finite());
    crate::schema::stripping_leaves_no_refs(native[i]);
    crate::schema::stripping_keeps_finite(native[i]);
    if let Json::Object(m) = tool {
        crate::schema::lemma_ref_count_of_changed(m, "search_content_types"@, Json::Null);
    }
}

/// A normalized payload never asks for no reasoning.
pub proof fn native_payload_asks_no_such_reasoning(payload: Json)
    ensures
        !asks_for_no_reasoning(native_payload(payload)),
{
    lemma_payload_keys_differ();
}

/// Normalizing leaves every other part of a payload as it was.
pub proof fn native_payload_keeps_the_rest(payload: Json, key: Seq<char>)
    requires
        key != "input"@,
        key != "tools"@,
        key != "reasoning"@,
    ensures
        native_payload(payload).get(key) == payload.get(key),
{
}

} // verus!
