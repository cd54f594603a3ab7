//! What becomes of a payload for a strict endpoint: member by member of a tool
//! or an item, one by one of a list, key by key of the payload.
use vstd::prelude::*;

use crate::ids::bounded_name;
use crate::items::normalized_item;
use crate::json::{Json, json_text};
use crate::literals::lemma_literals;
use crate::native::{
    accepted_tools, bounded_tool, custom_function, native_changes, native_child, native_children,
    native_payload, native_tool, native_tools, normalized_items, orphan_outputs, prefixed_tool,
    unsupported_fields, without_unsupported_field, without_unsupported_fields,
};
use crate::schema::{ref_count, ref_sum, stripped, stripped_items};
use crate::tool_laws::input_field;

verus! {

/// Whether two tools are the same in every member but the name.
pub open spec fn same_but_for_the_name(a: Json, b: Json) -> bool {
    forall|k: Seq<char>| k != "name"@ ==> #[trigger] a.get(k) == b.get(k)
}

/// A tool keeps every member but its name, which is bounded where it is a
/// string; the same under its flat name in a namespace. One without such a name
/// stays as it is.
pub proof fn tools_keep_all_but_their_name(tool: Json, namespace: Seq<char>)
    ensures
        same_but_for_the_name(bounded_tool(tool), tool),
        same_but_for_the_name(prefixed_tool(tool, namespace), tool),
        tool.str_at("name"@) matches Some(name) ==> {
            &&& bounded_tool(tool).get("name"@) == Some(Json::String(bounded_name(name)))
            &&& prefixed_tool(tool, namespace).get("name"@) == Some(
                Json::String(bounded_name(namespace + "-"@ + name)),
            )
        },
        tool.str_at("name"@) is None ==> bounded_tool(tool) == tool && prefixed_tool(
            tool,
            namespace,
        ) == tool,
{
    lemma_literals();
}

/// A function outside every namespace keeps every member but its name, which
/// is bounded where it is a string.
pub proof fn functions_keep_all_but_their_name(tool: Json)
    requires
        tool.has_str("type"@, "function"@),
    ensures
        native_tools(seq![tool]).len() == 1,
        same_but_for_the_name(native_tools(seq![tool])[0], tool),
        native_tools(seq![tool])[0].get("name"@) == match tool.str_at("name"@) {
            Some(name) => Some(Json::String(bounded_name(name))),
            None => tool.get("name"@),
        },
{
    lemma_literals();
    lemma_tool_alone(tool);
    assert(native_tool(tool) == seq![bounded_tool(tool)]);
}

proof fn lemma_tool_alone(tool: Json)
    ensures
        native_tools(seq![tool]) == native_tool(tool),
{
    let one = seq![tool];
    assert(one.drop_last() =~= Seq::empty());
    assert(one.last() == tool);
    assert(native_tools(one.drop_last()) =~= Seq::empty());
    assert(native_tools(one) =~= native_tool(tool));
}

/// A function inside a namespace keeps every member but its name, which is the
/// bounded flat name where it is a string.
pub proof fn namespaced_functions_keep_all_but_their_name(namespace: Seq<char>, child: Json)
    requires
        child.has_str("type"@, "function"@),
    ensures
        native_children(namespace, seq![child]).len() == 1,
        same_but_for_the_name(native_children(namespace, seq![child])[0], child),
        native_children(namespace, seq![child])[0].get("name"@) == match child.str_at("name"@) {
            Some(name) => Some(Json::String(bounded_name(namespace + "-"@ + name))),
            None => child.get("name"@),
        },
{
    lemma_literals();
    lemma_child_alone(namespace, child);
    assert(native_child(namespace, child) == Some(prefixed_tool(child, namespace)));
}

proof fn lemma_child_alone(namespace: Seq<char>, child: Json)
    ensures
        native_children(namespace, seq![child]) == match native_child(namespace, child) {
            Some(r) => seq![r],
            None => Seq::<Json>::empty(),
        },
{
    let one = seq![child];
    assert(one.drop_last() =~= Seq::empty());
    assert(one.last() == child);
    let none = native_children(namespace, one.drop_last());
    assert(none =~= Seq::empty());
    if let Some(r) = native_child(namespace, child) {
        assert(none.push(r) =~= seq![r]);
    }
}

/// Whether a function stands for a custom tool under this full name: it has
/// the members of the tool but for the format of the input, and parameters
/// with one required string where the tool has none.
pub open spec fn stands_for_custom_tool(r: Json, tool: Json, full: Seq<char>) -> bool {
    let schema = r.get("parameters"@)->0;
    let field = input_field(tool.str_at("name"@)->0);
    &&& r.get("type"@) == Some(Json::String("function"@))
    &&& r.get("name"@) == Some(Json::String(bounded_name(full)))
    &&& r.get("format"@) is None
    &&& r.get("input_format"@) is None
    &&& forall|k: Seq<char>|
        k != "type"@ && k != "name"@ && k != "format"@ && k != "input_format"@ && k != "parameters"@
            ==> #[trigger] r.get(k) == tool.get(k)
    &&& tool.get("parameters"@) is Some ==> r.get("parameters"@) == tool.get("parameters"@)
    &&& tool.get("parameters"@) is None ==> {
        &&& schema.get("type"@) == Some(Json::String("object"@))
        &&& schema.get("required"@) == Some(Json::Array(seq![Json::String(field)]))
        &&& forall|k: Seq<char>| #[trigger]
            schema.get(k) is Some <==> k == "type"@ || k == "required"@ || k == "properties"@
        &&& forall|k: Seq<char>| #[trigger]
            schema.get("properties"@)->0.get(k) is Some <==> k == field
        &&& schema.get("properties"@)->0.get(field)->0.get("type"@) == Some(
            Json::String("string"@),
        )
        &&& forall|k: Seq<char>| #[trigger]
            schema.get("properties"@)->0.get(field)->0.get(k) is Some <==> k == "type"@
    }
}

/// A function stands for any tool with a name, under that name or the flat one,
/// and none for a tool without a name.
pub proof fn functions_stand_for_tools_with_names(tool: Json, namespace: Option<Seq<char>>)
    ensures
        custom_function(tool, namespace) is Some <==> tool.str_at("name"@) is Some,
        custom_function(tool, namespace) matches Some(r) ==> stands_for_custom_tool(
            r,
            tool,
            match namespace {
                Some(namespace) => namespace + "-"@ + tool.str_at("name"@)->0,
                None => tool.str_at("name"@)->0,
            },
        ),
{
    lemma_literals();
}

/// A custom tool with a name becomes a function with the same members, one
/// without a name is left out; the same inside a namespace, under the flat name.
pub proof fn custom_tools_become_functions(tool: Json, namespace: Seq<char>)
    requires
        tool.has_str("type"@, "custom"@),
    ensures
        tool.str_at("name"@) is None ==> native_tools(seq![tool]).len() == 0 && native_children(
            namespace,
            seq![tool],
        ).len() == 0,
        tool.str_at("name"@) matches Some(name) ==> {
            &&& native_tools(seq![tool]).len() == 1
            &&& stands_for_custom_tool(native_tools(seq![tool])[0], tool, name)
            &&& native_children(namespace, seq![tool]).len() == 1
            &&& stands_for_custom_tool(
                native_children(namespace, seq![tool])[0],
                tool,
                namespace + "-"@ + name,
            )
        },
{
    lemma_literals();
    lemma_tool_alone(tool);
    lemma_child_alone(namespace, tool);
    if let Some(r) = custom_function(tool, None) {
        assert(native_tools(seq![tool])[0] == r);
    }
    if let Some(r) = custom_function(tool, Some(namespace)) {
        assert(native_children(namespace, seq![tool])[0] == r);
    }
}

/// A web search stays as it is, a namespace gives its functions in its place,
/// and a tool of any other kind is left out.
pub proof fn other_native_tools(tool: Json)
    ensures
        tool.has_str("type"@, "web_search_preview"@) ==> native_tools(seq![tool]) == seq![tool],
        tool.has_str("type"@, "namespace"@) ==> native_tools(seq![tool]) == native_children(
            tool.str_or("name"@, ""@),
            tool.items_at("tools"@),
        ),
        !tool.has_str("type"@, "function"@) && !tool.has_str("type"@, "custom"@) && !tool.has_str(
            "type"@,
            "namespace"@,
        ) && !tool.has_str("type"@, "web_search_preview"@) ==> native_tools(seq![tool])
            == Seq::<Json>::empty(),
{
    lemma_literals();
    lemma_tool_alone(tool);
}

/// A tool of any other kind inside a namespace is left out.
pub proof fn other_native_children(namespace: Seq<char>, child: Json)
    requires
        !child.has_str("type"@, "function"@),
        !child.has_str("type"@, "custom"@),
    ensures
        native_children(namespace, seq![child]) == Seq::<Json>::empty(),
{
    lemma_child_alone(namespace, child);
}

/// The tools of a list are normalized one by one, in their order.
pub proof fn tools_are_normalized_one_by_one(a: Seq<Json>, b: Seq<Json>)
    ensures
        native_tools(a + b) == native_tools(a) + native_tools(b),
    decreases b.len(),
{
    if b.len() == 0 {
        assert(a + b =~= a);
        assert(native_tools(a) + native_tools(b) =~= native_tools(a));
    } else {
        assert((a + b).drop_last() =~= a + b.drop_last());
        tools_are_normalized_one_by_one(a, b.drop_last());
        assert(native_tools(a + b) =~= native_tools(a) + native_tools(b));
    }
}

/// The tools inside a namespace are normalized one by one, in their order.
pub proof fn children_are_normalized_one_by_one(namespace: Seq<char>, a: Seq<Json>, b: Seq<Json>)
    ensures
        native_children(namespace, a + b) == native_children(namespace, a) + native_children(
            namespace,
            b,
        ),
    decreases b.len(),
{
    if b.len() == 0 {
        assert(a + b =~= a);
        assert(native_children(namespace, a) + native_children(namespace, b) =~= native_children(
            namespace,
            a,
        ));
    } else {
        assert((a + b).drop_last() =~= a + b.drop_last());
        children_are_normalized_one_by_one(namespace, a, b.drop_last());
        assert(native_children(namespace, a + b) =~= native_children(namespace, a)
            + native_children(namespace, b));
    }
}

/// Functions inside a namespace come out one for one, in their order, each with
/// every member but its name as it was declared.
pub proof fn a_namespace_of_functions_keeps_them(namespace: Seq<char>, children: Seq<Json>)
    requires
        forall|i: int|
            0 <= i < children.len() ==> (#[trigger] children[i]).has_str("type"@, "function"@),
    ensures
        native_children(namespace, children).len() == children.len(),
        forall|i: int|
            0 <= i < children.len() ==> {
                let r = native_children(namespace, children)[i];
                &&& same_but_for_the_name(r, #[trigger] children[i])
                &&& r.get("name"@) == match children[i].str_at("name"@) {
                    Some(name) => Some(Json::String(bounded_name(namespace + "-"@ + name))),
                    None => children[i].get("name"@),
                }
            },
    decreases children.len(),
{
    if children.len() > 0 {
        let rest = children.drop_last();
        let last = children.last();
        assert forall|i: int| 0 <= i < rest.len() implies (#[trigger] rest[i]).has_str(
            "type"@,
            "function"@,
        ) by {
            assert(rest[i] == children[i]);
        }
        a_namespace_of_functions_keeps_them(namespace, rest);
        assert(children =~= rest + seq![last]);
        children_are_normalized_one_by_one(namespace, rest, seq![last]);
        assert(children[children.len() - 1].has_str("type"@, "function"@));
        namespaced_functions_keep_all_but_their_name(namespace, last);
        assert forall|i: int| 0 <= i < children.len() implies {
            let r = native_children(namespace, children)[i];
            &&& same_but_for_the_name(r, #[trigger] children[i])
            &&& r.get("name"@) == match children[i].str_at("name"@) {
                Some(name) => Some(Json::String(bounded_name(namespace + "-"@ + name))),
                None => children[i].get("name"@),
            }
        } by {
            if i < rest.len() {
                assert(rest[i] == children[i]);
            }
        }
    }
}

/// A tool without the field that only a web search may have keeps every other
/// member; a web search keeps the field too.
pub proof fn only_the_search_field_is_taken_out(tool: Json, k: Seq<char>)
    ensures
        k != "search_content_types"@ || tool.has_str("type"@, "web_search_preview"@)
            ==> without_unsupported_field(tool).get(k) == tool.get(k),
        !tool.has_str("type"@, "web_search_preview"@) ==> without_unsupported_field(tool).get(
            "search_content_types"@,
        ) is None,
        !(tool is Object) ==> without_unsupported_field(tool) == tool,
        tool is Object ==> without_unsupported_field(tool) is Object,
{
}

/// The fields are taken out of the tools of a list one for one.
pub proof fn search_fields_are_taken_out_one_for_one(tools: Seq<Json>, i: int)
    requires
        0 <= i < tools.len(),
    ensures
        without_unsupported_fields(tools).len() == tools.len(),
        without_unsupported_fields(tools)[i] == without_unsupported_field(tools[i]),
        stripped_items(tools).len() == tools.len(),
        stripped_items(tools)[i] == stripped(tools[i]),
{
}

/// The number of tools that lose the field: those that have it and are no web
/// search, each counted once.
pub proof fn each_search_field_is_counted(tools: Seq<Json>, tool: Json)
    ensures
        unsupported_fields(Seq::<Json>::empty()) == 0,
        unsupported_fields(tools.push(tool)) == unsupported_fields(tools) + (if tool.get(
            "search_content_types"@,
        ) is Some && tool.str_at("type"@) != Some("web_search_preview"@) {
            1nat
        } else {
            0nat
        }),
{
    assert(tools.push(tool).drop_last() =~= tools);
}

/// Each tool that a payload is sent with is a normalized one, with its schema
/// references stripped and without the field that only a web search may have.
pub proof fn accepted_tools_are_the_native_ones(tools: Seq<Json>, i: int)
    requires
        0 <= i < native_tools(tools).len(),
    ensures
        accepted_tools(tools).len() == native_tools(tools).len(),
        accepted_tools(tools)[i] == without_unsupported_field(stripped(native_tools(tools)[i])),
{
}

/// Stripping takes out a value that has a `$ref` member, and leaves an empty
/// object in its place. In every other object it goes on member by member,
/// with no member lost, in every array item by item, and anything else stays.
pub proof fn stripping_goes_through_the_parts(v: Json)
    requires
        v.finite(),
    ensures
        v.get("$ref"@) is Some ==> stripped(v) is Object && forall|k: Seq<char>| #[trigger]
            stripped(v).get(k) is None,
        v is Object && v.get("$ref"@) is None ==> stripped(v) is Object && forall|k: Seq<char>|
         #[trigger]
            stripped(v).get(k) == match v.get(k) {
                Some(member) => Some(stripped(member)),
                None => None,
            },
        v is Array ==> stripped(v) is Array && stripped(v)->Array_0.len() == v->Array_0.len()
            && forall|i: int|
            0 <= i < v->Array_0.len() ==> #[trigger] stripped(v)->Array_0[i] == stripped(
                v->Array_0[i],
            ),
        !(v is Object) && !(v is Array) ==> stripped(v) == v,
{
}

/// The number of `$ref` nodes: one for a value that has a `$ref` member; none
/// for what has no parts; for an array or an object as many as in its parts.
pub proof fn ref_nodes_are_counted_once(
    v: Json,
    items: Seq<Json>,
    item: Json,
    members: Map<Seq<char>, Json>,
    key: Seq<char>,
    member: Json,
)
    ensures
        v.get("$ref"@) is Some ==> ref_count(v) == 1,
        !(v is Object) && !(v is Array) ==> ref_count(v) == 0,
        ref_count(Json::Array(items)) == ref_sum(items),
        ref_sum(Seq::<Json>::empty()) == 0,
        ref_sum(items.push(item)) == ref_sum(items) + ref_count(item),
        ref_count(Json::Object(Map::empty())) == 0,
        members.dom().finite() && !members.contains_key("$ref"@) && key != "$ref"@
            && !members.contains_key(key) ==> ref_count(Json::Object(members.insert(key, member)))
            == ref_count(Json::Object(members)) + ref_count(member),
{
    let one = seq![item];
    assert(items.push(item) =~= items + one);
    crate::schema::lemma_ref_sum_of_both(items, one);
    assert(one.drop_first() =~= Seq::empty());
    assert(ref_sum(one.drop_first()) == 0);
    assert(ref_sum(one) == ref_count(item));
    let none = Map::<Seq<char>, Json>::empty();
    crate::schema::lemma_no_refs_in_members(none);
    if members.dom().finite() && !members.contains_key("$ref"@) && key != "$ref"@
        && !members.contains_key(key) {
        crate::schema::lemma_ref_count_of_new_member(members, key, member);
    }
}

/// A custom tool call becomes a function call with its call ID and its name,
/// and with the input as the one member of its arguments.
pub proof fn custom_calls_become_function_calls(item: Json)
    requires
        item.has_str("type"@, "custom_tool_call"@),
    ensures
        ({
            let r = normalized_item(item);
            let name = item.str_or("name"@, "tool"@);
            let input = match item.get("input"@) {
                Some(input) => input,
                None => Json::String(""@),
            };
            &&& r.get("type"@) == Some(Json::String("function_call"@))
            &&& r.get("call_id"@) == Some(
                match item.get("call_id"@) {
                    Some(id) => id,
                    None => Json::Null,
                },
            )
            &&& r.get("name"@) == Some(Json::String(name))
            &&& r.get("arguments"@) == Some(
                Json::String(
                    json_text(
                        Json::Object(
                            Map::<Seq<char>, Json>::empty().insert(input_field(name), input),
                        ),
                    ),
                ),
            )
            &&& forall|k: Seq<char>| #[trigger]
                r.get(k) is Some <==> k == "type"@ || k == "call_id"@ || k == "name"@ || k
                    == "arguments"@
        }),
{
    lemma_literals();
}

/// The output of a custom tool becomes that of a function, with every member
/// but the type as it was.
pub proof fn custom_outputs_become_function_outputs(item: Json, k: Seq<char>)
    requires
        item.has_str("type"@, "custom_tool_call_output"@),
    ensures
        normalized_item(item).get("type"@) == Some(Json::String("function_call_output"@)),
        k != "type"@ ==> normalized_item(item).get(k) == item.get(k),
{
    lemma_literals();
}

/// A function output without a call ID becomes a developer message that names
/// the tool and holds the output; one with a call ID stays.
pub proof fn outputs_without_call_become_messages(item: Json)
    requires
        item.has_str("type"@, "function_call_output"@),
    ensures
        item.str_or("call_id"@, ""@).len() > 0 ==> normalized_item(item) == item,
        item.str_or("call_id"@, ""@).len() == 0 ==> {
            let r = normalized_item(item);
            let name = item.str_or("name"@, "tool"@);
            let namespace = item.str_or("namespace"@, ""@);
            let label = if namespace.len() == 0 {
                name
            } else {
                namespace + "/"@ + name
            };
            let output = match item.get("output"@) {
                Some(Json::String(text)) => text,
                Some(value) => json_text(value),
                None => Seq::empty(),
            };
            &&& r.get("type"@) == Some(Json::String("message"@))
            &&& r.get("role"@) == Some(Json::String("developer"@))
            &&& r.get("content"@) == Some(
                Json::String("["@ + label + " output]\n"@ + output),
            )
            &&& forall|k: Seq<char>| #[trigger]
                r.get(k) is Some <==> k == "type"@ || k == "role"@ || k == "content"@
        },
{
    lemma_literals();
}

/// An item that is neither a custom call nor an output stays as it is.
pub proof fn other_items_stay_as_they_are(item: Json)
    requires
        !item.has_str("type"@, "custom_tool_call"@),
        !item.has_str("type"@, "custom_tool_call_output"@),
        !item.has_str("type"@, "function_call_output"@),
    ensures
        normalized_item(item) == item,
{
}

/// The number of outputs without a call ID, each counted once.
pub proof fn each_output_without_call_is_counted(items: Seq<Json>, item: Json)
    ensures
        orphan_outputs(Seq::<Json>::empty()) == 0,
        orphan_outputs(items.push(item)) == orphan_outputs(items) + (if item.str_at("type"@)
            == Some("function_call_output"@) && (item.str_at("call_id"@) is None || item.str_at(
            "call_id"@,
        )->0.len() == 0) {
            1nat
        } else {
            0nat
        }),
{
    reveal_strlit("");
    assert(items.push(item).drop_last() =~= items);
}

/// A payload for a strict endpoint, key by key: the items of its input and its
/// tools are normalized in their places, the reasoning is left out where it
/// asks for none, and everything else stays.
pub proof fn payloads_are_normalized_key_by_key(payload: Json, k: Seq<char>)
    ensures
        k != "input"@ && k != "tools"@ && k != "reasoning"@ ==> native_payload(payload).get(k)
            == payload.get(k),
        native_payload(payload).get("input"@) == match payload.get("input"@) {
            Some(Json::Array(items)) => Some(Json::Array(normalized_items(items))),
            other => other,
        },
        native_payload(payload).get("tools"@) == match payload.get("tools"@) {
            Some(Json::Array(tools)) => Some(Json::Array(accepted_tools(tools))),
            other => other,
        },
        native_payload(payload).get("reasoning"@) == match payload.get("reasoning"@) {
            Some(reasoning) => if reasoning.str_at("effort"@) == Some("none"@) {
                None
            } else {
                Some(reasoning)
            },
            None => None,
        },
        !(payload is Object) ==> native_payload(payload) == payload,
        payload is Object ==> native_payload(payload) is Object,
{
    lemma_literals();
}

/// The items of an input stay in their places, one for one.
pub proof fn input_items_stay_in_place(items: Seq<Json>, i: int)
    requires
        0 <= i < items.len(),
    ensures
        normalized_items(items).len() == items.len(),
        normalized_items(items)[i] == normalized_item(items[i]),
{
}

/// What normalizing a payload counts: the outputs without a call in its input,
/// the schema references in its normalized tools, and the search fields there
/// once the references are stripped.
pub proof fn changes_are_counted(payload: Json)
    ensures
        native_changes(payload).0 == orphan_outputs(
            match payload.get("input"@) {
                Some(Json::Array(items)) => items,
                _ => Seq::empty(),
            },
        ),
        native_changes(payload).1 == match payload.get("tools"@) {
            Some(Json::Array(tools)) => ref_count(Json::Array(native_tools(tools))),
            _ => 0,
        },
        native_changes(payload).2 == match payload.get("tools"@) {
            Some(Json::Array(tools)) => match stripped(Json::Array(native_tools(tools))) {
                Json::Array(rest) => unsupported_fields(rest),
                _ => 0,
            },
            _ => 0,
        },
{
    let tools = native_tools(payload.items_at("tools"@));
    assert(stripped(Json::Array(tools)) == Json::Array(stripped_items(tools)));
    if payload.array_at("tools"@) is None {
        assert(tools =~= Seq::empty());
        assert(stripped_items(tools) =~= Seq::empty());
    }
}

} // verus!
