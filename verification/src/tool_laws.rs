//! What becomes of the tools of a request: part by part of a tool, tool by tool
//! of a list, and back from the name that the upstream calls.
use vstd::prelude::*;

use crate::json::Json;
use crate::literals::lemma_literals;
use crate::tool_names::{
    CustomToolMap, NamespaceToolMap, ToolId, ambiguous_name, callable_names, custom_child_entries,
    custom_entries, custom_entry, custom_ids, custom_tool_entries, declared_name, declared_tool,
    first_repeat, function_names, last_wins, namespace_child_entries, namespace_entries,
    namespace_entry, namespace_ids, namespace_tool_entries, plaintext_arguments, replayed_name,
    string_parameter, with_entry,
};
use crate::tools::{
    argument_field, chat_tool, chat_tools, child_chat_tool, children_chat_tools, custom_chat_tool,
    denies, expanded_tool, flat_function, function_name, function_tool, input_schema, namespaced,
};

verus! {

/// The Chat Completions form of a flat function tool is a function tool whose
/// `function` member has the description and the parameters of the tool, where
/// it has any, and the name that is given, or else the name of the tool. It has
/// nothing else.
pub proof fn flat_tools_keep_their_parts(tool: Json, given: Option<Seq<char>>)
    requires
        tool.has_str("type"@, "function"@),
        tool.get("function"@) is None,
    ensures
        chat_tool(tool, given).get("type"@) == Some(Json::String("function"@)),
        forall|k: Seq<char>| #[trigger]
            chat_tool(tool, given).get(k) is Some <==> k == "type"@ || k == "function"@,
        ({
            let function = chat_tool(tool, given).get("function"@)->0;
            &&& function is Object
            &&& function.get("description"@) == tool.get("description"@)
            &&& function.get("parameters"@) == tool.get("parameters"@)
            &&& function.get("name"@) == match given {
                Some(name) => Some(Json::String(name)),
                None => tool.get("name"@),
            }
            &&& forall|k: Seq<char>| #[trigger]
                function.get(k) is Some ==> k == "name"@ || k == "description"@ || k
                    == "parameters"@
        }),
{
    lemma_literals();
    let m = tool->Object_0;
    let function = flat_function(m, given);
    assert(chat_tool(tool, given) == function_tool(function));
}

/// A tool that has a `function` member stays as it is, but for the name in that
/// member where another is given and can be put there.
pub proof fn nested_tools_stay_but_for_their_name(tool: Json, given: Option<Seq<char>>)
    requires
        tool.get("function"@) is Some,
    ensures
        forall|k: Seq<char>|
            k != "function"@ ==> #[trigger] chat_tool(tool, given).get(k) == tool.get(k),
        chat_tool(tool, given).get("function"@) is Some,
        ({
            let before = tool.get("function"@)->0;
            let after = chat_tool(tool, given).get("function"@)->0;
            &&& (given is None || !(before is Object)) ==> after == before
            &&& (given is Some && before is Object) ==> after is Object && after.get("name"@)
                == Some(Json::String(given->0))
            &&& before is Object ==> forall|k: Seq<char>|
                k != "name"@ ==> #[trigger] after.get(k) == before.get(k)
        }),
{
    lemma_literals();
}

/// What is neither a function tool nor has a `function` member stays as it is.
pub proof fn other_tools_stay_as_they_are(tool: Json, given: Option<Seq<char>>)
    requires
        tool.get("function"@) is None,
        !tool.has_str("type"@, "function"@),
    ensures
        chat_tool(tool, given) == tool,
{
}

/// The field in which a custom tool of this name takes its input.
pub open spec fn input_field(name: Seq<char>) -> Seq<char> {
    if name == "apply_patch"@ {
        "patch"@
    } else {
        "input"@
    }
}

/// A custom tool with a name that is not denied becomes a function tool of that
/// name, with its own description or a usual one, whose parameters are an
/// object with one string in it, which is required, and nothing else.
pub proof fn custom_tools_offer_one_required_string(tool: Json, denied: Set<Seq<char>>)
    ensures
        custom_chat_tool(tool, denied) is Some <==> (tool.str_at("name"@) matches Some(name)
            && !denied.contains(name)),
        custom_chat_tool(tool, denied) matches Some(r) ==> {
            let name = tool.str_at("name"@)->0;
            let function = r.get("function"@)->0;
            let parameters = function.get("parameters"@)->0;
            let properties = parameters.get("properties"@)->0;
            &&& r.get("type"@) == Some(Json::String("function"@))
            &&& forall|k: Seq<char>| #[trigger]
                r.get(k) is Some <==> k == "type"@ || k == "function"@
            &&& function.get("name"@) == Some(Json::String(name))
            &&& function.get("description"@) == Some(
                Json::String(
                    match tool.str_at("description"@) {
                        Some(text) => text,
                        None => "Provide the raw custom tool input."@,
                    },
                ),
            )
            &&& forall|k: Seq<char>| #[trigger]
                function.get(k) is Some <==> k == "name"@ || k == "description"@ || k
                    == "parameters"@
            &&& parameters.get("type"@) == Some(Json::String("object"@))
            &&& parameters.get("additionalProperties"@) == Some(Json::Bool(false))
            &&& parameters.get("required"@) == Some(
                Json::Array(seq![Json::String(input_field(name))]),
            )
            &&& forall|k: Seq<char>| #[trigger]
                parameters.get(k) is Some <==> k == "type"@ || k == "additionalProperties"@ || k
                    == "required"@ || k == "properties"@
            &&& forall|k: Seq<char>| #[trigger] properties.get(k) is Some <==> k == input_field(name)
            &&& properties.get(input_field(name))->0.get("type"@) == Some(Json::String("string"@))
            &&& forall|k: Seq<char>| #[trigger]
                properties.get(input_field(name))->0.get(k) is Some <==> k == "type"@
        },
{
    lemma_literals();
    if let Some(r) = custom_chat_tool(tool, denied) {
        let name = tool.str_at("name"@)->0;
        let schema = input_schema(input_field(name)).insert(
            "additionalProperties"@,
            Json::Bool(false),
        );
        let function = r.get("function"@)->0;
        assert(function.get("parameters"@) == Some(Json::Object(schema)));
    }
}

/// The tools of a list are converted one by one, in their order.
pub proof fn tools_are_converted_one_by_one(a: Seq<Json>, b: Seq<Json>, denied: Set<Seq<char>>)
    ensures
        chat_tools(a + b, denied) == chat_tools(a, denied) + chat_tools(b, denied),
    decreases b.len(),
{
    if b.len() == 0 {
        assert(a + b =~= a);
        assert(chat_tools(a, denied) + chat_tools(b, denied) =~= chat_tools(a, denied));
    } else {
        assert((a + b).drop_last() =~= a + b.drop_last());
        tools_are_converted_one_by_one(a, b.drop_last(), denied);
        assert(chat_tools(a + b, denied) =~= chat_tools(a, denied) + chat_tools(b, denied));
    }
}

/// A tool alone: a function that is not denied, by the name that it goes under,
/// is converted; a custom tool is; a namespace is converted child by child;
/// anything else is left out.
pub proof fn a_tool_alone_is_converted(tool: Json, denied: Set<Seq<char>>)
    ensures
        tool.has_str("type"@, "function"@) ==> {
            let name = match tool.get("function"@) {
                Some(f) => if f.str_at("name"@) is Some {
                    f.str_at("name"@)
                } else {
                    tool.str_at("name"@)
                },
                None => tool.str_at("name"@),
            };
            chat_tools(seq![tool], denied) == if name is Some && denied.contains(name->0) {
                Seq::<Json>::empty()
            } else {
                seq![chat_tool(tool, None)]
            }
        },
        tool.has_str("type"@, "custom"@) ==> chat_tools(seq![tool], denied) == match custom_chat_tool(
            tool,
            denied,
        ) {
            Some(r) => seq![r],
            None => Seq::<Json>::empty(),
        },
        tool.has_str("type"@, "namespace"@) ==> chat_tools(seq![tool], denied)
            == children_chat_tools(tool.str_or("name"@, ""@), tool.items_at("tools"@), denied),
        !tool.has_str("type"@, "function"@) && !tool.has_str("type"@, "custom"@) && !tool.has_str(
            "type"@,
            "namespace"@,
        ) ==> chat_tools(seq![tool], denied) == Seq::<Json>::empty(),
{
    lemma_literals();
    let one = seq![tool];
    assert(one.drop_last() =~= Seq::empty());
    assert(one.last() == tool);
    assert(chat_tools(one.drop_last(), denied) =~= Seq::empty());
    assert(chat_tools(one, denied) =~= expanded_tool(tool, denied));
    if let Some(r) = custom_chat_tool(tool, denied) {
        assert(Seq::<Json>::empty().push(r) =~= seq![r]);
    }
}

/// The tools inside a namespace are converted one by one, in their order.
pub proof fn children_are_converted_one_by_one(
    namespace: Seq<char>,
    a: Seq<Json>,
    b: Seq<Json>,
    denied: Set<Seq<char>>,
)
    ensures
        children_chat_tools(namespace, a + b, denied) == children_chat_tools(namespace, a, denied)
            + children_chat_tools(namespace, b, denied),
    decreases b.len(),
{
    if b.len() == 0 {
        assert(a + b =~= a);
        assert(children_chat_tools(namespace, a, denied) + children_chat_tools(
            namespace,
            b,
            denied,
        ) =~= children_chat_tools(namespace, a, denied));
    } else {
        assert((a + b).drop_last() =~= a + b.drop_last());
        children_are_converted_one_by_one(namespace, a, b.drop_last(), denied);
        assert(children_chat_tools(namespace, a + b, denied) =~= children_chat_tools(
            namespace,
            a,
            denied,
        ) + children_chat_tools(namespace, b, denied));
    }
}

/// A tool alone inside a namespace: a function goes under the name of the
/// namespace, a hyphen and its own name, and is left out where that is denied;
/// a custom tool keeps its own name; anything else is left out.
pub proof fn a_child_alone_is_converted(namespace: Seq<char>, child: Json, denied: Set<Seq<char>>)
    ensures
        child.has_str("type"@, "function"@) && child.str_at("name"@) is Some ==> {
            let flat = namespace + "-"@ + child.str_at("name"@)->0;
            children_chat_tools(namespace, seq![child], denied) == if denied.contains(flat) {
                Seq::<Json>::empty()
            } else {
                seq![chat_tool(child, Some(flat))]
            }
        },
        child.has_str("type"@, "function"@) && child.str_at("name"@) is None ==> {
            let name = match child.get("function"@) {
                Some(f) => f.str_at("name"@),
                None => None,
            };
            children_chat_tools(namespace, seq![child], denied) == if name is Some
                && denied.contains(name->0) {
                Seq::<Json>::empty()
            } else {
                seq![chat_tool(child, None)]
            }
        },
        child.has_str("type"@, "custom"@) ==> children_chat_tools(namespace, seq![child], denied)
            == match custom_chat_tool(child, denied) {
            Some(r) => seq![r],
            None => Seq::<Json>::empty(),
        },
        !child.has_str("type"@, "function"@) && !child.has_str("type"@, "custom"@)
            ==> children_chat_tools(namespace, seq![child], denied) == Seq::<Json>::empty(),
{
    lemma_literals();
    let one = seq![child];
    assert(one.drop_last() =~= Seq::empty());
    assert(one.last() == child);
    let none = children_chat_tools(namespace, one.drop_last(), denied);
    assert(none =~= Seq::empty());
    if let Some(r) = child_chat_tool(namespace, child, denied) {
        assert(none.push(r) =~= seq![r]);
    }
}

/// The custom tool map knows a custom tool exactly when it is converted, under
/// the name of the converted tool, and with the one required property of its
/// parameters as the field of the input.
pub proof fn custom_field_is_the_required_property(tool: Json, denied: Set<Seq<char>>)
    requires
        tool.has_str("type"@, "custom"@),
    ensures
        custom_entry(tool, denied) is Some <==> custom_chat_tool(tool, denied) is Some,
        custom_entry(tool, denied) matches Some((key, (name, field))) ==> {
            let function = custom_chat_tool(tool, denied)->0.get("function"@)->0;
            &&& function.get("name"@) == Some(Json::String(key))
            &&& name == key
            &&& function.get("parameters"@)->0.get("required"@) == Some(
                Json::Array(seq![Json::String(field)]),
            )
        },
{
    lemma_literals();
    custom_tools_offer_one_required_string(tool, denied);
}

/// The single parameter of a function: where it takes exactly one, and that is
/// a string.
pub proof fn single_string_parameter(tool: Json)
    requires
        tool.finite(),
    ensures
        forall|field: Seq<char>|
            string_parameter(tool) == Some(field) <==> {
                let properties = tool.get("parameters"@)->0.get("properties"@)->0;
                &&& tool.get("parameters"@) is Some
                &&& tool.get("parameters"@)->0.get("properties"@) is Some
                &&& properties is Object
                &&& forall|k: Seq<char>| #[trigger] properties.get(k) is Some <==> k == field
                &&& properties.get(field)->0.str_at("type"@) == Some("string"@)
            },
{
    if tool.get("parameters"@) is Some && tool.get("parameters"@)->0.get("properties"@) is Some
        && tool.get("parameters"@)->0.get("properties"@)->0 is Object {
        let parameters = tool.get("parameters"@)->0;
        let properties = parameters.get("properties"@)->0;
        let m = properties->Object_0;
        assert(parameters.finite());
        assert(properties.finite());
        assert forall|field: Seq<char>|
            string_parameter(tool) == Some(field) <==> {
                &&& forall|k: Seq<char>| #[trigger] properties.get(k) is Some <==> k == field
                &&& properties.get(field)->0.str_at("type"@) == Some("string"@)
            } by {
            if string_parameter(tool) == Some(field) {
                assert forall|k: Seq<char>| #[trigger] properties.get(k) is Some <==> k
                    == field by {
                    assert(m.dom().contains(field));
                    if m.dom().contains(k) && k != field {
                        assert(m.dom().remove(field).contains(k));
                        assert(m.dom().remove(field).len() == 0);
                    }
                }
            }
            if (forall|k: Seq<char>| #[trigger] properties.get(k) is Some <==> k == field)
                && properties.get(field)->0.str_at("type"@) == Some("string"@) {
                assert forall|k: Seq<char>| m.dom().contains(k) <==> k == field by {
                    assert(properties.get(k) is Some <==> k == field);
                }
                assert(m.dom() =~= Set::empty().insert(field));
                assert(m.dom().choose() == field) by {
                    assert(m.dom().contains(field));
                    assert(m.dom().contains(m.dom().choose()));
                }
            }
        }
    }
}

/// `apply_patch` declared as a function is a custom tool all the same: its
/// input stands in its single string parameter, or else in `patch`. No other
/// function is a custom tool.
pub proof fn functions_as_custom_tools(tool: Json, denied: Set<Seq<char>>)
    requires
        !tool.has_str("type"@, "custom"@),
    ensures
        custom_entry(tool, denied) is Some <==> tool.has_str("type"@, "function"@) && tool.str_at(
            "name"@,
        ) == Some("apply_patch"@) && !denied.contains("apply_patch"@),
        custom_entry(tool, denied) matches Some((key, (name, field))) ==> {
            &&& key == "apply_patch"@
            &&& name == "apply_patch"@
            &&& field == match string_parameter(tool) {
                Some(parameter) => parameter,
                None => "patch"@,
            }
        },
{
    lemma_literals();
}

/// The entries of a list of tools for the custom tool map stand in the order of
/// the tools: those of a tool before those of the next.
pub proof fn custom_entries_stand_in_order(a: Seq<Json>, b: Seq<Json>, denied: Set<Seq<char>>)
    ensures
        custom_entries(a + b, denied) == custom_entries(a, denied) + custom_entries(b, denied),
    decreases b.len(),
{
    if b.len() == 0 {
        assert(a + b =~= a);
        assert(custom_entries(a, denied) + custom_entries(b, denied) =~= custom_entries(a, denied));
    } else {
        assert((a + b).drop_last() =~= a + b.drop_last());
        custom_entries_stand_in_order(a, b.drop_last(), denied);
        assert(custom_entries(a + b, denied) =~= custom_entries(a, denied) + custom_entries(
            b,
            denied,
        ));
    }
}

/// Among the entries for the custom tool map are those of a tool, and those of
/// the custom tools inside a namespace, and no others.
pub proof fn custom_entries_are_of_custom_tools(
    tools: Seq<Json>,
    denied: Set<Seq<char>>,
    e: (Seq<char>, ToolId),
)
    ensures
        custom_entries(tools, denied).contains(e) <==> (exists|i: int|
            0 <= i < tools.len() && custom_entry(#[trigger] tools[i], denied) == Some(e)) || (
        exists|i: int, j: int|
            0 <= i < tools.len() && tools[i].has_str("type"@, "namespace"@) && 0 <= j
                < tools[i].items_at("tools"@).len() && tools[i].items_at("tools"@)[j].has_str(
                "type"@,
                "custom"@,
            ) && custom_entry(#[trigger] tools[i].items_at("tools"@)[j], denied) == Some(e)),
    decreases tools.len(),
{
    if tools.len() > 0 {
        let rest = tools.drop_last();
        let tool = tools.last();
        let n = tools.len() - 1;
        let children = tool.items_at("tools"@);
        let before = custom_entries(rest, denied);
        let own = custom_tool_entries(tool, denied);
        let after = custom_entries(tools, denied);
        custom_entries_are_of_custom_tools(rest, denied, e);
        lemma_custom_child_entries_are(children, denied, e);
        assert(tools[n] == tool);
        assert(after.contains(e) <==> before.contains(e) || own.contains(e)) by {
            lemma_contains_both(before, own, e);
        }
        let alone = with_entry(Seq::empty(), custom_entry(tool, denied));
        assert(alone.contains(e) <==> custom_entry(tool, denied) == Some(e)) by {
            if custom_entry(tool, denied) == Some(e) {
                assert(alone[0] == e);
            }
        }
        if tool.has_str("type"@, "namespace"@) {
            lemma_contains_both(alone, custom_child_entries(children, denied), e);
        }
        if after.contains(e) {
            if before.contains(e) {
                if exists|i: int|
                    0 <= i < rest.len() && custom_entry(#[trigger] rest[i], denied) == Some(e) {
                    let i = choose|i: int|
                        0 <= i < rest.len() && custom_entry(#[trigger] rest[i], denied) == Some(e);
                    assert(tools[i] == rest[i]);
                } else {
                    let (i, j) = choose|i: int, j: int|
                        0 <= i < rest.len() && rest[i].has_str("type"@, "namespace"@) && 0 <= j
                            < rest[i].items_at("tools"@).len() && rest[i].items_at(
                            "tools"@,
                        )[j].has_str("type"@, "custom"@) && custom_entry(
                            #[trigger] rest[i].items_at("tools"@)[j],
                            denied,
                        ) == Some(e);
                    assert(tools[i].items_at("tools"@)[j] == rest[i].items_at("tools"@)[j]);
                }
            } else if custom_entry(tool, denied) != Some(e) {
                let j = choose|j: int|
                    0 <= j < children.len() && children[j].has_str("type"@, "custom"@)
                        && custom_entry(#[trigger] children[j], denied) == Some(e);
                assert(tools[n].items_at("tools"@)[j] == children[j]);
            }
        }
        if exists|i: int|
            0 <= i < tools.len() && custom_entry(#[trigger] tools[i], denied) == Some(e) {
            let i = choose|i: int|
                0 <= i < tools.len() && custom_entry(#[trigger] tools[i], denied) == Some(e);
            if i < n {
                assert(rest[i] == tools[i]);
            }
        }
        if exists|i: int, j: int|
            0 <= i < tools.len() && tools[i].has_str("type"@, "namespace"@) && 0 <= j
                < tools[i].items_at("tools"@).len() && tools[i].items_at("tools"@)[j].has_str(
                "type"@,
                "custom"@,
            ) && custom_entry(#[trigger] tools[i].items_at("tools"@)[j], denied) == Some(e) {
            let (i, j) = choose|i: int, j: int|
                0 <= i < tools.len() && tools[i].has_str("type"@, "namespace"@) && 0 <= j
                    < tools[i].items_at("tools"@).len() && tools[i].items_at("tools"@)[j].has_str(
                    "type"@,
                    "custom"@,
                ) && custom_entry(#[trigger] tools[i].items_at("tools"@)[j], denied) == Some(e);
            if i < n {
                assert(rest[i].items_at("tools"@)[j] == tools[i].items_at("tools"@)[j]);
            } else {
                assert(children[j] == tools[i].items_at("tools"@)[j]);
            }
        }
    }
}

pub(crate) proof fn lemma_contains_both<A>(a: Seq<A>, b: Seq<A>, e: A)
    ensures
        (a + b).contains(e) <==> a.contains(e) || b.contains(e),
{
    if a.contains(e) {
        let i = choose|i: int| 0 <= i < a.len() && a[i] == e;
        assert((a + b)[i] == e);
    }
    if b.contains(e) {
        let i = choose|i: int| 0 <= i < b.len() && b[i] == e;
        assert((a + b)[a.len() + i] == e);
    }
    if (a + b).contains(e) {
        let i = choose|i: int| 0 <= i < (a + b).len() && (a + b)[i] == e;
        if i < a.len() {
            assert(a[i] == e);
        } else {
            assert(b[i - a.len()] == e);
        }
    }
}

proof fn lemma_custom_child_entries_are(
    children: Seq<Json>,
    denied: Set<Seq<char>>,
    e: (Seq<char>, ToolId),
)
    ensures
        custom_child_entries(children, denied).contains(e) <==> exists|j: int|
            0 <= j < children.len() && children[j].has_str("type"@, "custom"@) && custom_entry(
                #[trigger] children[j],
                denied,
            ) == Some(e),
    decreases children.len(),
{
    if children.len() > 0 {
        let rest = children.drop_last();
        let child = children.last();
        let n = children.len() - 1;
        lemma_custom_child_entries_are(rest, denied, e);
        let before = custom_child_entries(rest, denied);
        let after = custom_child_entries(children, denied);
        assert(children[n] == child);
        if child.has_str("type"@, "custom"@) && custom_entry(child, denied) is Some {
            let found = custom_entry(child, denied)->0;
            assert(after =~= before + seq![found]);
            lemma_contains_both(before, seq![found], e);
            assert(seq![found].contains(e) <==> found == e) by {
                assert(seq![found][0] == found);
            }
        } else {
            assert(after == before);
        }
        if before.contains(e) {
            let j = choose|j: int|
                0 <= j < rest.len() && rest[j].has_str("type"@, "custom"@) && custom_entry(
                    #[trigger] rest[j],
                    denied,
                ) == Some(e);
            assert(children[j] == rest[j]);
        }
        if exists|j: int|
            0 <= j < children.len() && children[j].has_str("type"@, "custom"@) && custom_entry(
                #[trigger] children[j],
                denied,
            ) == Some(e) {
            let j = choose|j: int|
                0 <= j < children.len() && children[j].has_str("type"@, "custom"@) && custom_entry(
                    #[trigger] children[j],
                    denied,
                ) == Some(e);
            if j < n {
                assert(rest[j] == children[j]);
            }
        }
    }
}

/// A tool alone has at most one entry of its own for the custom tool map; a
/// namespace has those of its custom tools instead, in their order.
pub proof fn a_tool_alone_has_its_entries(tool: Json, denied: Set<Seq<char>>)
    ensures
        !tool.has_str("type"@, "namespace"@) ==> custom_entries(seq![tool], denied)
            == match custom_entry(tool, denied) {
            Some(e) => seq![e],
            None => Seq::<(Seq<char>, ToolId)>::empty(),
        },
        tool.has_str("type"@, "namespace"@) ==> custom_entries(seq![tool], denied)
            == custom_child_entries(tool.items_at("tools"@), denied),
{
    lemma_literals();
    let one = seq![tool];
    assert(one.drop_last() =~= Seq::empty());
    assert(one.last() == tool);
    let none = Seq::<(Seq<char>, ToolId)>::empty();
    assert(custom_entries(one.drop_last(), denied) =~= none);
    assert(custom_entries(one, denied) =~= custom_tool_entries(tool, denied));
    if tool.has_str("type"@, "namespace"@) {
        assert(custom_entry(tool, denied) is None);
        assert(none + custom_child_entries(tool.items_at("tools"@), denied)
            =~= custom_child_entries(tool.items_at("tools"@), denied));
    }
    if let Some(e) = custom_entry(tool, denied) {
        assert(none.push(e) =~= seq![e]);
    }
}

/// The denylist knows a tool by the name that is given, or else by the name in
/// its `function` member, or else by its own.
pub proof fn tools_are_denied_by_name(
    denied: Set<Seq<char>>,
    tool: Json,
    given: Option<Seq<char>>,
)
    ensures
        given matches Some(name) ==> (denies(denied, tool, given) <==> denied.contains(name)),
        given is None ==> (denies(denied, tool, given) <==> match tool.get("function"@) {
            Some(f) => match f.str_at("name"@) {
                Some(name) => denied.contains(name),
                None => tool.str_at("name"@) matches Some(name) && denied.contains(name),
            },
            None => tool.str_at("name"@) matches Some(name) && denied.contains(name),
        }),
{
}

/// The flat name of a tool in a namespace is the two names with a hyphen
/// between them, and the field of a custom tool goes by its name.
pub proof fn flat_names_and_fields(namespace: Seq<char>, name: Seq<char>)
    ensures
        namespaced(namespace, name) == namespace + "-"@ + name,
        argument_field(name) == input_field(name),
        ambiguous_name(name) == "ambiguous tool name "@ + name + ": declared more than once"@,
{
}

/// The models of the two maps have the keys of the maps, and under each of them
/// the two names of the tool there, or its name and its field.
pub proof fn maps_show_their_tools(
    namespaces: NamespaceToolMap,
    custom: CustomToolMap,
    key: Seq<char>,
)
    ensures
        namespace_ids(namespaces).contains_key(key) <==> namespaces@.contains_key(key),
        namespaces@.contains_key(key) ==> namespace_ids(namespaces)[key] == (
            namespaces@[key].namespace@,
            namespaces@[key].name@,
        ),
        custom_ids(custom).contains_key(key) <==> custom@.contains_key(key),
        custom@.contains_key(key) ==> custom_ids(custom)[key] == (
            custom@[key].name@,
            custom@[key].argument_field@,
        ),
{
}

/// A map that a list of entries makes: the last entry for a key counts.
pub proof fn last_entry_for_a_key_counts(entries: Seq<(Seq<char>, ToolId)>, key: Seq<char>)
    ensures
        last_wins(entries).contains_key(key) <==> exists|i: int|
            0 <= i < entries.len() && (#[trigger] entries[i]).0 == key,
        last_wins(entries).contains_key(key) ==> exists|i: int|
            {
                &&& 0 <= i < entries.len()
                &&& (#[trigger] entries[i]) == (key, last_wins(entries)[key])
                &&& forall|j: int| i < j < entries.len() ==> (#[trigger] entries[j]).0 != key
            },
    decreases entries.len(),
{
    if entries.len() > 0 {
        let rest = entries.drop_last();
        let n = entries.len() - 1;
        last_entry_for_a_key_counts(rest, key);
        assert(entries[n] == entries.last());
        if entries.last().0 == key {
            assert(entries[n] == (key, last_wins(entries)[key]));
        } else {
            if last_wins(rest).contains_key(key) {
                let i = choose|i: int|
                    {
                        &&& 0 <= i < rest.len()
                        &&& (#[trigger] rest[i]) == (key, last_wins(rest)[key])
                        &&& forall|j: int| i < j < rest.len() ==> (#[trigger] rest[j]).0 != key
                    };
                assert(entries[i] == rest[i]);
                assert forall|j: int| i < j < entries.len() implies (#[trigger] entries[j]).0
                    != key by {
                    if j < n {
                        assert(rest[j] == entries[j]);
                    }
                }
            }
            if exists|i: int| 0 <= i < entries.len() && (#[trigger] entries[i]).0 == key {
                let i = choose|i: int|
                    0 <= i < entries.len() && (#[trigger] entries[i]).0 == key;
                assert(rest[i] == entries[i]);
            }
        }
    }
}

/// Whether some function of the list is named `apply_patch`.
pub open spec fn declares_apply_patch_function(tools: Seq<Json>) -> bool {
    exists|i: int|
        0 <= i < tools.len() && (#[trigger] tools[i]).has_str("type"@, "function"@)
            && tools[i].has_str("name"@, "apply_patch"@)
}

/// The map to custom tools gives for a name that it knows the one required
/// property that a custom tool of that name offers the upstream: `patch` for
/// `apply_patch`, `input` for any other. (A function named `apply_patch` may
/// declare another field.)
pub proof fn custom_map_gives_the_offered_field(
    tools: Seq<Json>,
    denied: Set<Seq<char>>,
    key: Seq<char>,
)
    requires
        last_wins(custom_entries(tools, denied)).contains_key(key),
        key == "apply_patch"@ ==> !declares_apply_patch_function(tools),
    ensures
        last_wins(custom_entries(tools, denied))[key] == (key, input_field(key)),
{
    lemma_literals();
    let entries = custom_entries(tools, denied);
    last_entry_for_a_key_counts(entries, key);
    let i = choose|i: int|
        {
            &&& 0 <= i < entries.len()
            &&& (#[trigger] entries[i]) == (key, last_wins(entries)[key])
            &&& forall|j: int| i < j < entries.len() ==> (#[trigger] entries[j]).0 != key
        };
    let e = (key, last_wins(entries)[key]);
    assert(entries.contains(e));
    custom_entries_are_of_custom_tools(tools, denied, e);
    if exists|i: int| 0 <= i < tools.len() && custom_entry(#[trigger] tools[i], denied) == Some(e) {
        let i = choose|i: int|
            0 <= i < tools.len() && custom_entry(#[trigger] tools[i], denied) == Some(e);
        if !tools[i].has_str("type"@, "custom"@) {
            functions_as_custom_tools(tools[i], denied);
            assert(tools[i].has_str("name"@, "apply_patch"@));
        }
    }
}

/// Every custom tool that is converted, inside a namespace or not, is found
/// under its name, with the field that it offers the upstream.
pub proof fn converted_custom_tools_are_found(
    tools: Seq<Json>,
    denied: Set<Seq<char>>,
    tool: Json,
    name: Seq<char>,
)
    requires
        tool.has_str("type"@, "custom"@),
        tool.str_at("name"@) == Some(name),
        !denied.contains(name),
        tools.contains(tool) || exists|i: int|
            0 <= i < tools.len() && (#[trigger] tools[i]).has_str("type"@, "namespace"@)
                && tools[i].items_at("tools"@).contains(tool),
        name == "apply_patch"@ ==> !declares_apply_patch_function(tools),
    ensures
        last_wins(custom_entries(tools, denied)).contains_key(name),
        last_wins(custom_entries(tools, denied))[name] == (name, input_field(name)),
{
    lemma_literals();
    let e = (name, (name, input_field(name)));
    let entries = custom_entries(tools, denied);
    assert(custom_entry(tool, denied) == Some(e));
    if tools.contains(tool) {
        let i = choose|i: int| 0 <= i < tools.len() && tools[i] == tool;
        assert(custom_entry(tools[i], denied) == Some(e));
    } else {
        let i = choose|i: int|
            0 <= i < tools.len() && (#[trigger] tools[i]).has_str("type"@, "namespace"@)
                && tools[i].items_at("tools"@).contains(tool);
        let children = tools[i].items_at("tools"@);
        let j = choose|j: int| 0 <= j < children.len() && children[j] == tool;
        assert(custom_entry(tools[i].items_at("tools"@)[j], denied) == Some(e));
    }
    custom_entries_are_of_custom_tools(tools, denied, e);
    let k = choose|k: int| 0 <= k < entries.len() && entries[k] == e;
    assert(entries[k].0 == name);
    last_entry_for_a_key_counts(entries, name);
    custom_map_gives_the_offered_field(tools, denied, name);
}

/// Among the entries for the map to function tools is a function inside a
/// namespace that has a name, unless its flat name is denied, and nothing else.
pub proof fn namespace_entries_are_of_functions(
    tools: Seq<Json>,
    denied: Set<Seq<char>>,
    e: (Seq<char>, ToolId),
)
    ensures
        namespace_entries(tools, denied).contains(e) <==> exists|i: int, j: int|
            0 <= i < tools.len() && 0 <= j < tools[i].items_at("tools"@).len()
                && #[trigger] is_named_function(tools[i], tools[i].items_at("tools"@)[j], denied, e),
    decreases tools.len(),
{
    if tools.len() > 0 {
        let rest = tools.drop_last();
        let tool = tools.last();
        let n = tools.len() - 1;
        let children = tool.items_at("tools"@);
        assert(tools[n] == tool);
        namespace_entries_are_of_functions(rest, denied, e);
        lemma_contains_both(
            namespace_entries(rest, denied),
            namespace_tool_entries(tool, denied),
            e,
        );
        lemma_tool_entries_are(tool, denied, e);
        if namespace_entries(rest, denied).contains(e) {
            let (i, j) = choose|i: int, j: int|
                0 <= i < rest.len() && 0 <= j < rest[i].items_at("tools"@).len()
                    && #[trigger] is_named_function(
                    rest[i],
                    rest[i].items_at("tools"@)[j],
                    denied,
                    e,
                );
            assert(is_named_function(tools[i], tools[i].items_at("tools"@)[j], denied, e));
        }
        if namespace_tool_entries(tool, denied).contains(e) {
            let j = choose|j: int|
                0 <= j < children.len() && #[trigger] is_named_function(
                    tool,
                    children[j],
                    denied,
                    e,
                );
            assert(is_named_function(tools[n], tools[n].items_at("tools"@)[j], denied, e));
        }
        if exists|i: int, j: int|
            0 <= i < tools.len() && 0 <= j < tools[i].items_at("tools"@).len()
                && #[trigger] is_named_function(
                tools[i],
                tools[i].items_at("tools"@)[j],
                denied,
                e,
            ) {
            let (i, j) = choose|i: int, j: int|
                0 <= i < tools.len() && 0 <= j < tools[i].items_at("tools"@).len()
                    && #[trigger] is_named_function(
                    tools[i],
                    tools[i].items_at("tools"@)[j],
                    denied,
                    e,
                );
            if i < n {
                assert(is_named_function(rest[i], rest[i].items_at("tools"@)[j], denied, e));
            } else {
                assert(is_named_function(tool, children[j], denied, e));
            }
        }
    }
}

/// Whether `e` leads from the flat name of a function inside a namespace, which
/// is not denied, to the names of the two.
pub open spec fn is_named_function(
    tool: Json,
    child: Json,
    denied: Set<Seq<char>>,
    e: (Seq<char>, ToolId),
) -> bool {
    &&& tool.has_str("type"@, "namespace"@)
    &&& tool.str_at("name"@) == Some(e.1.0)
    &&& child.has_str("type"@, "function"@)
    &&& child.str_at("name"@) == Some(e.1.1) || (child.str_at("name"@) is None && (child.get(
        "function"@,
    ) matches Some(f) && f.str_at("name"@) == Some(e.1.1)))
    &&& e.0 == e.1.0 + "-"@ + e.1.1
    &&& !denied.contains(e.0)
}

proof fn lemma_tool_entries_are(tool: Json, denied: Set<Seq<char>>, e: (Seq<char>, ToolId))
    ensures
        namespace_tool_entries(tool, denied).contains(e) <==> exists|j: int|
            0 <= j < tool.items_at("tools"@).len() && #[trigger] is_named_function(
                tool,
                tool.items_at("tools"@)[j],
                denied,
                e,
            ),
{
    let children = tool.items_at("tools"@);
    if tool.has_str("type"@, "namespace"@) && tool.str_at("name"@) is Some {
        lemma_child_entries_are(tool, tool.str_at("name"@)->0, children, denied, e);
    }
}

proof fn lemma_child_entries_are(
    tool: Json,
    namespace: Seq<char>,
    children: Seq<Json>,
    denied: Set<Seq<char>>,
    e: (Seq<char>, ToolId),
)
    requires
        tool.has_str("type"@, "namespace"@),
        tool.str_at("name"@) == Some(namespace),
    ensures
        namespace_child_entries(namespace, children, denied).contains(e) <==> exists|j: int|
            0 <= j < children.len() && #[trigger] is_named_function(tool, children[j], denied, e),
    decreases children.len(),
{
    if children.len() > 0 {
        let rest = children.drop_last();
        let child = children.last();
        let n = children.len() - 1;
        let before = namespace_child_entries(namespace, rest, denied);
        let after = namespace_child_entries(namespace, children, denied);
        lemma_child_entries_are(tool, namespace, rest, denied, e);
        assert(children[n] == child);
        assert(namespace_entry(namespace, child, denied) == Some(e) <==> is_named_function(
            tool,
            child,
            denied,
            e,
        ));
        match namespace_entry(namespace, child, denied) {
            Some(found) => {
                assert(after =~= before + seq![found]);
                lemma_contains_both(before, seq![found], e);
                assert(seq![found].contains(e) <==> found == e) by {
                    assert(seq![found][0] == found);
                }
            },
            None => {
                assert(after == before);
            },
        }
        if before.contains(e) {
            let j = choose|j: int|
                0 <= j < rest.len() && #[trigger] is_named_function(tool, rest[j], denied, e);
            assert(is_named_function(tool, children[j], denied, e));
        }
        if exists|j: int|
            0 <= j < children.len() && #[trigger] is_named_function(
                tool,
                children[j],
                denied,
                e,
            ) {
            let j = choose|j: int|
                0 <= j < children.len() && #[trigger] is_named_function(
                    tool,
                    children[j],
                    denied,
                    e,
                );
            if j < n {
                assert(is_named_function(tool, rest[j], denied, e));
            }
        }
    }
}

/// The entries for the map to function tools stand in the order of the tools.
pub proof fn namespace_entries_stand_in_order(a: Seq<Json>, b: Seq<Json>, denied: Set<Seq<char>>)
    ensures
        namespace_entries(a + b, denied) == namespace_entries(a, denied) + namespace_entries(
            b,
            denied,
        ),
    decreases b.len(),
{
    if b.len() == 0 {
        assert(a + b =~= a);
        assert(namespace_entries(a, denied) + namespace_entries(b, denied) =~= namespace_entries(
            a,
            denied,
        ));
    } else {
        assert((a + b).drop_last() =~= a + b.drop_last());
        namespace_entries_stand_in_order(a, b.drop_last(), denied);
        assert(namespace_entries(a + b, denied) =~= namespace_entries(a, denied)
            + namespace_entries(b, denied));
    }
}

/// A flat name that the map knows stands for the function there; any other name
/// stands for itself, outside every namespace.
pub proof fn known_names_lead_to_their_function(name: Seq<char>, ids: Map<Seq<char>, ToolId>)
    ensures
        ids.contains_key(name) ==> declared_tool(name, ids).0 == Some(ids[name].0)
            && declared_tool(name, ids).1 == ids[name].1,
        !ids.contains_key(name) ==> declared_tool(name, ids).0 is None && declared_tool(
            name,
            ids,
        ).1 == name,
{
}

/// The name of a replayed call: its own, after its namespace and a hyphen where
/// it has a namespace that is not empty.
pub proof fn replayed_calls_go_under_flat_names(item: Json)
    ensures
        item.str_or("namespace"@, ""@).len() == 0 ==> replayed_name(item) == item.str_or(
            "name"@,
            ""@,
        ),
        item.str_or("namespace"@, ""@).len() > 0 ==> replayed_name(item) == item.str_or(
            "namespace"@,
            ""@,
        ) + "-"@ + item.str_or("name"@, ""@),
{
}

/// Only three tools take their arguments in plain text, all of them in the
/// namespace `collaboration`.
pub proof fn only_collaboration_takes_plain_text(namespace: Option<Seq<char>>, name: Seq<char>)
    ensures
        plaintext_arguments(namespace, name) ==> namespace == Some("collaboration"@),
        namespace == Some("collaboration"@) ==> (plaintext_arguments(namespace, name) <==> name
            == "spawn_agent"@ || name == "send_message"@ || name == "followup_task"@),
{
}

/// The names of some tools, in their order: those in the `function` members
/// that have one.
pub proof fn names_of_tools_stand_in_order(tools: Seq<Json>, tool: Json)
    ensures
        function_names(Seq::<Json>::empty()) == Seq::<Seq<char>>::empty(),
        function_names(tools.push(tool)) == match tool.get("function"@) {
            Some(f) => match f.str_at("name"@) {
                Some(name) => function_names(tools).push(name),
                None => function_names(tools),
            },
            None => function_names(tools),
        },
{
    assert(tools.push(tool).drop_last() =~= tools);
}

/// The name that is refused is the first that stands a second time: it stands
/// before, and up to there no other name stands twice.
pub proof fn first_repeat_is_the_first(names: Seq<Seq<char>>)
    ensures
        first_repeat(names) matches Some(name) ==> exists|i: int|
            {
                &&& 0 <= i < names.len()
                &&& #[trigger] names[i] == name
                &&& names.take(i).contains(name)
                &&& names.take(i).no_duplicates()
            },
    decreases names.len(),
{
    if let Some(name) = first_repeat(names) {
        let rest = names.drop_last();
        first_repeat_is_the_first(rest);
        if first_repeat(rest) is Some {
            let i = choose|i: int|
                {
                    &&& 0 <= i < rest.len()
                    &&& #[trigger] rest[i] == name
                    &&& rest.take(i).contains(name)
                    &&& rest.take(i).no_duplicates()
                };
            assert(names.take(i) =~= rest.take(i));
            assert(names[i] == name);
        } else {
            crate::tool_names::no_repeat_means_distinct(rest);
            assert(names.take(names.len() - 1) =~= rest);
            assert(names[names.len() - 1] == name);
        }
    }
}

proof fn lemma_function_names_contains(tools: Seq<Json>, name: Seq<char>)
    ensures
        function_names(tools).contains(name) <==> exists|i: int|
            0 <= i < tools.len() && function_name(#[trigger] tools[i]) == Some(name),
    decreases tools.len(),
{
    if tools.len() > 0 {
        let rest = tools.drop_last();
        let n = tools.len() - 1;
        let before = function_names(rest);
        let after = function_names(tools);
        lemma_function_names_contains(rest, name);
        assert(tools[n] == tools.last());
        if let Some(last) = function_name(tools.last()) {
            assert(after =~= before + seq![last]);
            lemma_contains_both(before, seq![last], name);
            assert(seq![last].contains(name) <==> last == name) by {
                assert(seq![last][0] == last);
            }
        }
        if before.contains(name) {
            let i = choose|i: int|
                0 <= i < rest.len() && function_name(#[trigger] rest[i]) == Some(name);
            assert(tools[i] == rest[i]);
        }
        if exists|i: int| 0 <= i < tools.len() && function_name(#[trigger] tools[i]) == Some(name) {
            let i = choose|i: int|
                0 <= i < tools.len() && function_name(#[trigger] tools[i]) == Some(name);
            if i < n {
                assert(rest[i] == tools[i]);
            }
        }
    }
}

/// A name can be called exactly when a function tool of the list has it in its
/// `function` member.
pub proof fn callable_names_are_those_of_functions(tools: Seq<Json>, name: Seq<char>)
    ensures
        callable_names(tools).contains(name) <==> exists|i: int|
            0 <= i < tools.len() && #[trigger] tools[i].str_at("type"@) == Some("function"@) && (
            tools[i].get("function"@) matches Some(f) && f.str_at("name"@) == Some(name)),
{
    let keep = |tool: Json| tool.has_str("type"@, "function"@);
    let kept = tools.filter(keep);
    lemma_function_names_contains(kept, name);
    broadcast use vstd::seq_lib::group_filter_ensures;

    if function_names(kept).contains(name) {
        let i = choose|i: int|
            0 <= i < kept.len() && function_name(#[trigger] kept[i]) == Some(name);
        assert(keep(kept[i]));
        assert(kept.contains(kept[i]));
        tools.lemma_filter_contains_rev(keep, kept[i]);
        let j = choose|j: int| 0 <= j < tools.len() && tools[j] == kept[i];
        assert(tools[j].str_at("type"@) == Some("function"@));
    }
    if exists|i: int|
        0 <= i < tools.len() && #[trigger] tools[i].str_at("type"@) == Some("function"@) && (
        tools[i].get("function"@) matches Some(f) && f.str_at("name"@) == Some(name)) {
        let i = choose|i: int|
            0 <= i < tools.len() && #[trigger] tools[i].str_at("type"@) == Some("function"@) && (
            tools[i].get("function"@) matches Some(f) && f.str_at("name"@) == Some(name));
        assert(keep(tools[i]));
        assert(kept.contains(tools[i]));
        let j = choose|j: int| 0 <= j < kept.len() && kept[j] == tools[i];
        assert(function_name(kept[j]) == Some(name));
    }
}

/// The name that a function tool declares: its own, or else that in its
/// `function` member.
pub proof fn declared_name_is_its_own_first(tool: Json)
    ensures
        tool.str_at("name"@) is Some ==> declared_name(tool) == tool.str_at("name"@),
        tool.str_at("name"@) is None ==> declared_name(tool) == match tool.get("function"@) {
            Some(f) => f.str_at("name"@),
            None => None,
        },
{
}

} // verus!
