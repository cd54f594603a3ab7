//! The names of tools on the two sides of the relay, and the maps that lead
//! from a flat Chat Completions name back to the declared tool.
use vstd::hash_map::StringHashMap;
use vstd::prelude::*;

use crate::env::{NameSet, RelayEnv, tool_denylist_from_env};
use crate::json::{Json, JsonValue, jsons_of};
use crate::text::{lemma_push_to_set, same_text, texts};
use crate::tools::{
    argument_field, chat_function_name_for_namespace_tool, chat_tool, chat_tool_name, chat_tools,
    child_chat_tool, children_chat_tools, convert_tools, custom_argument_field, denies,
    expanded_tool, function_name, namespaced, opt_str, tool_function_name, tool_is_denied,
};
use crate::types::opt_text;

verus! {

/// A function tool inside a namespace, as the request declared it.
#[derive(Debug, PartialEq, Eq)]
pub struct NamespaceToolName {
    pub namespace: String,
    pub name: String,
}

/// From flat names to function tools inside namespaces.
pub type NamespaceToolMap = StringHashMap<NamespaceToolName>;

/// A custom tool, and the field that carries its input.
#[derive(Debug, PartialEq, Eq)]
pub struct CustomToolName {
    pub name: String,
    pub argument_field: String,
}

/// From flat names to custom tools.
pub type CustomToolMap = StringHashMap<CustomToolName>;

/// The model of a declared tool: the namespace and the name of a function
/// tool, or the name and the argument field of a custom tool.
pub type ToolId = (Seq<char>, Seq<char>);

impl View for NamespaceToolName {
    type V = ToolId;

    open spec fn view(&self) -> ToolId {
        (self.namespace@, self.name@)
    }
}

impl Clone for NamespaceToolName {
    fn clone(&self) -> (r: NamespaceToolName)
        ensures
            r@ == self@,
    {
        NamespaceToolName { namespace: self.namespace.clone(), name: self.name.clone() }
    }
}

impl Clone for CustomToolName {
    fn clone(&self) -> (r: CustomToolName)
        ensures
            r@ == self@,
    {
        CustomToolName { name: self.name.clone(), argument_field: self.argument_field.clone() }
    }
}

impl View for CustomToolName {
    type V = ToolId;

    open spec fn view(&self) -> ToolId {
        (self.name@, self.argument_field@)
    }
}

/// The model of a map to function tools inside namespaces.
pub open spec fn namespace_ids(m: NamespaceToolMap) -> Map<Seq<char>, ToolId> {
    m@.map_values(|t: NamespaceToolName| t@)
}

/// The model of a map to custom tools.
pub open spec fn custom_ids(m: CustomToolMap) -> Map<Seq<char>, ToolId> {
    m@.map_values(|t: CustomToolName| t@)
}

/// The map that a list of entries makes: of two with one key, the later counts.
pub open spec fn last_wins(entries: Seq<(Seq<char>, ToolId)>) -> Map<Seq<char>, ToolId>
    decreases entries.len(),
{
    if entries.len() == 0 {
        Map::empty()
    } else {
        last_wins(entries.drop_last()).insert(entries.last().0, entries.last().1)
    }
}

/// `list` with `entry` at its end, where there is one.
pub open spec fn with_entry(
    list: Seq<(Seq<char>, ToolId)>,
    entry: Option<(Seq<char>, ToolId)>,
) -> Seq<(Seq<char>, ToolId)> {
    match entry {
        Some(e) => list.push(e),
        None => list,
    }
}

proof fn lemma_last_wins_push(entries: Seq<(Seq<char>, ToolId)>, e: (Seq<char>, ToolId))
    ensures
        last_wins(entries.push(e)) == last_wins(entries).insert(e.0, e.1),
{
    assert(entries.push(e).drop_last() =~= entries);
}

/// The name that a function tool declares, in the flat or the nested form.
pub open spec fn declared_name(tool: Json) -> Option<Seq<char>> {
    if tool.str_at("name"@) is Some {
        tool.str_at("name"@)
    } else {
        function_name(tool)
    }
}

/// The name that a function tool declares, in the flat or the nested form.
pub fn declared_function_name(tool: &JsonValue) -> (r: Option<&str>)
    ensures
        match r {
            Some(s) => declared_name(tool@) == Some(s@),
            None => declared_name(tool@) is None,
        },
{
    match tool.get_str("name") {
        Some(name) => Some(name),
        None => tool_function_name(tool),
    }
}

/// The entry for a tool inside a namespace: its flat name, its namespace, its name.
pub open spec fn namespace_entry(
    namespace: Seq<char>,
    child: Json,
    denied: Set<Seq<char>>,
) -> Option<(Seq<char>, ToolId)> {
    match declared_name(child) {
        Some(name) => if child.has_str("type"@, "function"@) && !denies(
            denied,
            child,
            Some(namespaced(namespace, name)),
        ) {
            Some((namespaced(namespace, name), (namespace, name)))
        } else {
            None
        },
        None => None,
    }
}

/// The entries for the tools inside a namespace.
pub open spec fn namespace_child_entries(
    namespace: Seq<char>,
    children: Seq<Json>,
    denied: Set<Seq<char>>,
) -> Seq<(Seq<char>, ToolId)>
    decreases children.len(),
{
    if children.len() == 0 {
        Seq::empty()
    } else {
        with_entry(
            namespace_child_entries(namespace, children.drop_last(), denied),
            namespace_entry(namespace, children.last(), denied),
        )
    }
}

/// The entries for one tool: those of its children, where it is a namespace
/// with a name.
pub open spec fn namespace_tool_entries(
    tool: Json,
    denied: Set<Seq<char>>,
) -> Seq<(Seq<char>, ToolId)> {
    match tool.str_at("name"@) {
        Some(namespace) => if tool.has_str("type"@, "namespace"@) {
            namespace_child_entries(namespace, tool.items_at("tools"@), denied)
        } else {
            Seq::empty()
        },
        None => Seq::empty(),
    }
}

/// The entries for a list of tools.
pub open spec fn namespace_entries(
    tools: Seq<Json>,
    denied: Set<Seq<char>>,
) -> Seq<(Seq<char>, ToolId)>
    decreases tools.len(),
{
    if tools.len() == 0 {
        Seq::empty()
    } else {
        namespace_entries(tools.drop_last(), denied) + namespace_tool_entries(tools.last(), denied)
    }
}

fn insert_namespace_children(
    map: &mut NamespaceToolMap,
    namespace: &str,
    children: &Vec<JsonValue>,
    denied: &NameSet,
    Ghost(start): Ghost<Seq<(Seq<char>, ToolId)>>,
)
    requires
        namespace_ids(*old(map)) == last_wins(start),
    ensures
        namespace_ids(*final(map)) == last_wins(
            start + namespace_child_entries(namespace@, jsons_of(children@), denied@),
        ),
{
    let ghost all = jsons_of(children@);
    let mut i: usize = 0;
    assert(all.take(0) =~= Seq::empty());
    assert(start + namespace_child_entries(namespace@, all.take(0), denied@) =~= start);
    while i < children.len()
        invariant
            i <= children@.len(),
            all == jsons_of(children@),
            namespace_ids(*map) == last_wins(
                start + namespace_child_entries(namespace@, all.take(i as int), denied@),
            ),
        decreases children.len() - i,
    {
        let child = &children[i];
        let ghost before = start + namespace_child_entries(namespace@, all.take(i as int), denied@);
        let ghost after = start + namespace_child_entries(namespace@, all.take(i + 1), denied@);
        assert(all.take(i + 1).drop_last() =~= all.take(i as int));
        assert(after =~= with_entry(before, namespace_entry(namespace@, child@, denied@)));
        if child.has_str("type", "function") {
            if let Some(name) = declared_function_name(child) {
                let chat_name = chat_function_name_for_namespace_tool(namespace, name);
                if !tool_is_denied(child, Some(chat_name.as_str()), denied) {
                    let ghost old_map = *map;
                    let ghost key = chat_name@;
                    let entry = NamespaceToolName {
                        namespace: namespace.to_owned(),
                        name: name.to_owned(),
                    };
                    map.insert(chat_name, entry);
                    proof {
                        assert(namespace_ids(*map) =~= namespace_ids(old_map).insert(key, entry@));
                        lemma_last_wins_push(before, (key, entry@));
                    }
                }
            }
        }
        i = i + 1;
    }
    assert(all.take(i as int) =~= all);
}

/// The map from flat names to the function tools inside the namespaces of a
/// request, without those that the environment denies.
pub fn namespace_tool_map(tools: &[JsonValue], env: &RelayEnv) -> (r: NamespaceToolMap)
    ensures
        namespace_ids(r) == last_wins(namespace_entries(jsons_of(tools@), env.denied())),
{
    let mut map = NamespaceToolMap::new();
    let denied = tool_denylist_from_env(env);
    let ghost all = jsons_of(tools@);
    let mut i: usize = 0;
    assert(all.take(0) =~= Seq::empty());
    assert(namespace_ids(map) =~= Map::empty());
    while i < tools.len()
        invariant
            i <= tools@.len(),
            all == jsons_of(tools@),
            denied@ == env.denied(),
            namespace_ids(map) == last_wins(namespace_entries(all.take(i as int), denied@)),
        decreases tools.len() - i,
    {
        let tool = &tools[i];
        let ghost before = namespace_entries(all.take(i as int), denied@);
        assert(all.take(i + 1).drop_last() =~= all.take(i as int));
        assert(all.take(i + 1).last() == tool@);
        assert(before + Seq::<(Seq<char>, ToolId)>::empty() =~= before);
        if tool.has_str("type", "namespace") {
            if let Some(namespace) = tool.get_str("name") {
                if let Some(children) = tool.get_array("tools") {
                    insert_namespace_children(
                        &mut map,
                        namespace,
                        children,
                        &denied,
                        Ghost(before),
                    );
                }
            }
        }
        i = i + 1;
    }
    assert(all.take(i as int) =~= all);
    map
}

/// The only parameter of a function tool, where that is a string.
pub open spec fn string_parameter(tool: Json) -> Option<Seq<char>> {
    match tool.get("parameters"@) {
        Some(parameters) => match parameters.get("properties"@) {
            Some(Json::Object(properties)) => {
                let field = properties.dom().choose();
                if properties.dom().len() == 1 && properties[field].has_str(
                    "type"@,
                    "string"@,
                ) {
                    Some(field)
                } else {
                    None
                }
            },
            _ => None,
        },
        None => None,
    }
}

/// If a function tool takes a single string parameter, that parameter's name.
pub fn function_tool_string_field(tool: &JsonValue) -> (r: Option<String>)
    ensures
        match r {
            Some(s) => string_parameter(tool@) == Some(s@),
            None => string_parameter(tool@) is None,
        },
{
    let properties = match tool.get("parameters") {
        Some(parameters) => match parameters.get("properties") {
            Some(JsonValue::Object(properties)) => properties,
            _ => {
                return None;
            },
        },
        None => {
            return None;
        },
    };
    if properties.len() != 1 {
        return None;
    }
    let mut keys = properties.keys();
    let ghost names = texts(keys@);
    proof {
        let field = properties@.dom().choose();
        assert(properties@.dom().contains(field));
        assert(names.to_set().contains(field));
        assert(names.contains(field));
        assert(names.len() == 1) by {
            names.unique_seq_to_set();
        }
        assert(names[0] == field);
    }
    let field = keys.remove(0);
    assert(field@ == names[0]);
    match properties.get(field.as_str()) {
        Some(schema) => if schema.has_str("type", "string") {
            Some(field)
        } else {
            None
        },
        None => None,
    }
}

/// The entry for a custom tool: its name, then its name and argument field.
///
/// `apply_patch` counts as a custom tool where it is declared as a function
/// too: its handler takes custom tool calls only. The argument field then
/// follows the declared schema.
pub open spec fn custom_entry(tool: Json, denied: Set<Seq<char>>) -> Option<(Seq<char>, ToolId)> {
    match tool.str_at("name"@) {
        Some(name) => if denied.contains(name) {
            None
        } else if tool.has_str("type"@, "custom"@) {
            Some((name, (name, argument_field(name))))
        } else if tool.has_str("type"@, "function"@) && name == "apply_patch"@ {
            match string_parameter(tool) {
                Some(field) => Some((name, (name, field))),
                None => Some((name, (name, argument_field(name)))),
            }
        } else {
            None
        },
        None => None,
    }
}

/// The entry for a custom tool.
pub fn custom_tool_entry(tool: &JsonValue, denied: &NameSet) -> (r: Option<
    (String, CustomToolName),
>)
    ensures
        match r {
            Some((name, custom)) => custom_entry(tool@, denied@) == Some((name@, custom@)),
            None => custom_entry(tool@, denied@) is None,
        },
{
    let name = match tool.get_str("name") {
        Some(name) => name,
        None => {
            return None;
        },
    };
    if denied.contains(name) {
        return None;
    }
    let argument_field = if tool.has_str("type", "custom") {
        custom_argument_field(name).to_owned()
    } else if tool.has_str("type", "function") && same_text(name, "apply_patch") {
        match function_tool_string_field(tool) {
            Some(field) => field,
            None => custom_argument_field(name).to_owned(),
        }
    } else {
        return None;
    };
    Some((name.to_owned(), CustomToolName { name: name.to_owned(), argument_field }))
}

/// The entries for the custom tools inside a namespace.
pub open spec fn custom_child_entries(
    children: Seq<Json>,
    denied: Set<Seq<char>>,
) -> Seq<(Seq<char>, ToolId)>
    decreases children.len(),
{
    if children.len() == 0 {
        Seq::empty()
    } else {
        let before = custom_child_entries(children.drop_last(), denied);
        if children.last().has_str("type"@, "custom"@) {
            with_entry(before, custom_entry(children.last(), denied))
        } else {
            before
        }
    }
}

/// The custom tools that one tool stands for: itself, or those inside it.
pub open spec fn custom_tool_entries(
    tool: Json,
    denied: Set<Seq<char>>,
) -> Seq<(Seq<char>, ToolId)> {
    let own = with_entry(Seq::empty(), custom_entry(tool, denied));
    if tool.has_str("type"@, "namespace"@) {
        own + custom_child_entries(tool.items_at("tools"@), denied)
    } else {
        own
    }
}

/// The entries for a list of tools.
pub open spec fn custom_entries(
    tools: Seq<Json>,
    denied: Set<Seq<char>>,
) -> Seq<(Seq<char>, ToolId)>
    decreases tools.len(),
{
    if tools.len() == 0 {
        Seq::empty()
    } else {
        custom_entries(tools.drop_last(), denied) + custom_tool_entries(tools.last(), denied)
    }
}

fn insert_custom_entry(
    map: &mut CustomToolMap,
    tool: &JsonValue,
    denied: &NameSet,
    Ghost(start): Ghost<Seq<(Seq<char>, ToolId)>>,
)
    requires
        custom_ids(*old(map)) == last_wins(start),
    ensures
        custom_ids(*final(map)) == last_wins(with_entry(start, custom_entry(tool@, denied@))),
{
    if let Some((name, custom)) = custom_tool_entry(tool, denied) {
        let ghost old_map = *map;
        let ghost key = name@;
        map.insert(name, custom);
        proof {
            assert(custom_ids(*map) =~= custom_ids(old_map).insert(key, custom@));
            lemma_last_wins_push(start, (key, custom@));
        }
    }
}

fn insert_custom_children(
    map: &mut CustomToolMap,
    children: &Vec<JsonValue>,
    denied: &NameSet,
    Ghost(start): Ghost<Seq<(Seq<char>, ToolId)>>,
)
    requires
        custom_ids(*old(map)) == last_wins(start),
    ensures
        custom_ids(*final(map)) == last_wins(
            start + custom_child_entries(jsons_of(children@), denied@),
        ),
{
    let ghost all = jsons_of(children@);
    let mut i: usize = 0;
    assert(all.take(0) =~= Seq::empty());
    assert(start + custom_child_entries(all.take(0), denied@) =~= start);
    while i < children.len()
        invariant
            i <= children@.len(),
            all == jsons_of(children@),
            custom_ids(*map) == last_wins(start + custom_child_entries(all.take(i as int), denied@)),
        decreases children.len() - i,
    {
        let child = &children[i];
        let ghost before = start + custom_child_entries(all.take(i as int), denied@);
        let ghost after = start + custom_child_entries(all.take(i + 1), denied@);
        assert(all.take(i + 1).drop_last() =~= all.take(i as int));
        if child.has_str("type", "custom") {
            assert(after =~= with_entry(before, custom_entry(child@, denied@)));
            insert_custom_entry(map, child, denied, Ghost(before));
        }
        i = i + 1;
    }
    assert(all.take(i as int) =~= all);
}

/// The map from flat names to the custom tools of a request, without those
/// that the environment denies.
pub fn custom_tool_map(tools: &[JsonValue], env: &RelayEnv) -> (r: CustomToolMap)
    ensures
        custom_ids(r) == last_wins(custom_entries(jsons_of(tools@), env.denied())),
{
    let denied = tool_denylist_from_env(env);
    let mut map = CustomToolMap::new();
    let ghost all = jsons_of(tools@);
    let mut i: usize = 0;
    assert(all.take(0) =~= Seq::empty());
    assert(custom_ids(map) =~= Map::empty());
    while i < tools.len()
        invariant
            i <= tools@.len(),
            all == jsons_of(tools@),
            denied@ == env.denied(),
            custom_ids(map) == last_wins(custom_entries(all.take(i as int), denied@)),
        decreases tools.len() - i,
    {
        let tool = &tools[i];
        let ghost before = custom_entries(all.take(i as int), denied@);
        let ghost own = with_entry(before, custom_entry(tool@, denied@));
        let ghost children = custom_child_entries(tool@.items_at("tools"@), denied@);
        assert(all.take(i + 1).drop_last() =~= all.take(i as int));
        assert(all.take(i + 1).last() == tool@);
        assert(before + with_entry(Seq::empty(), custom_entry(tool@, denied@)) =~= own);
        assert(before + (with_entry(Seq::empty(), custom_entry(tool@, denied@)) + children) =~= own
            + children);
        assert(own + Seq::<(Seq<char>, ToolId)>::empty() =~= own);
        insert_custom_entry(&mut map, tool, &denied, Ghost(before));
        if tool.has_str("type", "namespace") {
            if let Some(children) = tool.get_array("tools") {
                insert_custom_children(&mut map, children, &denied, Ghost(own));
            }
        }
        i = i + 1;
    }
    assert(all.take(i as int) =~= all);
    map
}

/// The names in the `function` members of a list of tools.
pub open spec fn function_names(tools: Seq<Json>) -> Seq<Seq<char>>
    decreases tools.len(),
{
    if tools.len() == 0 {
        Seq::empty()
    } else {
        match function_name(tools.last()) {
            Some(name) => function_names(tools.drop_last()).push(name),
            None => function_names(tools.drop_last()),
        }
    }
}

/// The first name that stands a second time in a list.
pub open spec fn first_repeat(names: Seq<Seq<char>>) -> Option<Seq<char>>
    decreases names.len(),
{
    if names.len() == 0 {
        None
    } else {
        match first_repeat(names.drop_last()) {
            Some(name) => Some(name),
            None => if names.drop_last().contains(names.last()) {
                Some(names.last())
            } else {
                None
            },
        }
    }
}

/// A list has no repeated name exactly when its names are all different.
pub proof fn no_repeat_means_distinct(names: Seq<Seq<char>>)
    ensures
        first_repeat(names) is None <==> names.no_duplicates(),
    decreases names.len(),
{
    if names.len() > 0 {
        let rest = names.drop_last();
        no_repeat_means_distinct(rest);
        if first_repeat(names) is None {
            assert forall|i: int, j: int|
                0 <= i < names.len() && 0 <= j < names.len() && i != j implies names[i]
                != names[j] by {
                if i == names.len() - 1 {
                    assert(rest[j] == names[j]);
                } else if j == names.len() - 1 {
                    assert(rest[i] == names[i]);
                } else {
                    assert(rest[i] == names[i] && rest[j] == names[j]);
                }
            }
        }
        if names.no_duplicates() {
            assert forall|i: int, j: int|
                0 <= i < rest.len() && 0 <= j < rest.len() && i != j implies rest[i] != rest[j] by {
                assert(rest[i] == names[i] && rest[j] == names[j]);
            }
            if rest.contains(names.last()) {
                let i = choose|i: int| 0 <= i < rest.len() && rest[i] == names.last();
                assert(names[i] == names[names.len() - 1]);
            }
        }
    }
}

/// The text that `Debug` writes for a string: quoted, with escapes.
pub uninterp spec fn debug_text(s: Seq<char>) -> Seq<char>;

/// `Debug` of `str`, without flags: the text is a function of the string alone.
/// Which characters it escapes, and how, is left unsaid.
#[verifier::external_body]
fn quoted(s: &str) -> (r: String)
    ensures
        r@ == debug_text(s@),
{
    format!("{:?}", s)
}

/// The message for a name, given in quotes, that is declared more than once.
pub open spec fn ambiguous_name(quoted_name: Seq<char>) -> Seq<char> {
    "ambiguous tool name "@ + quoted_name + ": declared more than once"@
}

/// The message for a name, given in quotes, that is declared more than once.
pub fn ambiguous_name_message(quoted_name: &str) -> (r: String)
    ensures
        r@ == ambiguous_name(quoted_name@),
{
    let mut message = "ambiguous tool name ".to_owned();
    message.append(quoted_name);
    message.append(": declared more than once");
    message
}

/// Rejects tool declarations that collapse to the same Chat Completions name.
///
/// The flat name of a tool in a namespace does not tell its parts; to overwrite
/// one identity in silence could route a call to the wrong namespace.
pub fn validate_unique_chat_tool_names(tools: &[JsonValue], env: &RelayEnv) -> (r: Result<
    (),
    String,
>)
    ensures
        match first_repeat(function_names(chat_tools(jsons_of(tools@), env.denied()))) {
            Some(name) => r matches Err(e) && e@ == ambiguous_name(debug_text(name)),
            None => r is Ok,
        },
{
    let converted = convert_tools(tools, env);
    let ghost all = jsons_of(converted@);
    let mut names = NameSet::new();
    let mut i: usize = 0;
    assert(all.take(0) =~= Seq::empty());
    assert(function_names(all.take(0)).to_set() =~= Set::empty());
    while i < converted.len()
        invariant
            i <= converted@.len(),
            all == jsons_of(converted@),
            all == chat_tools(jsons_of(tools@), env.denied()),
            names@ == function_names(all.take(i as int)).to_set(),
            first_repeat(function_names(all.take(i as int))) is None,
        decreases converted.len() - i,
    {
        let tool = &converted[i];
        let ghost before = function_names(all.take(i as int));
        assert(all.take(i + 1).drop_last() =~= all.take(i as int));
        if let Some(name) = tool_function_name(tool) {
            let ghost after = before.push(name@);
            assert(after.drop_last() =~= before);
            assert(function_names(all.take(i + 1)) == after);
            let fresh = names.insert(name.to_owned());
            assert(fresh == !before.contains(name@)) by {
                assert(before.to_set().contains(name@) == before.contains(name@));
            }
            if !fresh {
                proof {
                    assert(first_repeat(after) == Some(name@));
                    lemma_first_repeat_stays(all, i + 1);
                }
                return Err(ambiguous_name_message(quoted(name).as_str()));
            }
            proof {
                lemma_push_to_set(before, name@);
            }
        }
        i = i + 1;
    }
    assert(all.take(i as int) =~= all);
    Ok(())
}

proof fn lemma_first_repeat_stays(tools: Seq<Json>, n: int)
    requires
        0 <= n <= tools.len(),
        first_repeat(function_names(tools.take(n))) is Some,
    ensures
        first_repeat(function_names(tools)) == first_repeat(function_names(tools.take(n))),
    decreases tools.len(),
{
    if n == tools.len() {
        assert(tools.take(n) =~= tools);
    } else {
        let rest = tools.drop_last();
        assert(rest.take(n) =~= tools.take(n));
        lemma_first_repeat_stays(rest, n);
        if let Some(name) = function_name(tools.last()) {
            assert(function_names(rest).push(name).drop_last() =~= function_names(rest));
        }
    }
}

/// The names of the function tools in a Chat Completions tool list.
pub open spec fn callable_names(tools: Seq<Json>) -> Set<Seq<char>> {
    function_names(tools.filter(|tool: Json| tool.has_str("type"@, "function"@))).to_set()
}

/// The names of the function tools in a Chat Completions tool list.
pub fn chat_tool_names(tools: &[JsonValue]) -> (r: NameSet)
    ensures
        r@ == callable_names(jsons_of(tools@)),
{
    let mut names = NameSet::new();
    let listed = chat_tool_name_list(tools);
    let mut i: usize = 0;
    assert(texts(listed@).take(0).to_set() =~= Set::empty());
    while i < listed.len()
        invariant
            i <= listed@.len(),
            names@ == texts(listed@).take(i as int).to_set(),
        decreases listed.len() - i,
    {
        proof {
            let all = texts(listed@);
            assert(all.take(i + 1) =~= all.take(i as int).push(all[i as int]));
            lemma_push_to_set(all.take(i as int), all[i as int]);
        }
        names.insert(listed[i].clone());
        i = i + 1;
    }
    assert(texts(listed@).take(i as int) =~= texts(listed@));
    names
}

fn chat_tool_name_list(tools: &[JsonValue]) -> (r: Vec<String>)
    ensures
        texts(r@) == function_names(
            jsons_of(tools@).filter(|tool: Json| tool.has_str("type"@, "function"@)),
        ),
{
    let ghost all = jsons_of(tools@);
    let ghost is_function = |tool: Json| tool.has_str("type"@, "function"@);
    let mut names: Vec<String> = Vec::new();
    let mut i: usize = 0;
    assert(all.take(0) =~= Seq::empty());
    assert(all.take(0).filter(is_function) =~= Seq::empty()) by {
        reveal(Seq::filter);
    }
    assert(texts(names@) =~= Seq::empty());
    while i < tools.len()
        invariant
            i <= tools@.len(),
            all == jsons_of(tools@),
            is_function == (|tool: Json| tool.has_str("type"@, "function"@)),
            texts(names@) == function_names(all.take(i as int).filter(is_function)),
        decreases tools.len() - i,
    {
        let tool = &tools[i];
        let ghost before = all.take(i as int).filter(is_function);
        proof {
            reveal(Seq::filter);
            assert(all.take(i + 1).drop_last() =~= all.take(i as int));
            assert(before.push(tool@).drop_last() =~= before);
        }
        if tool.has_str("type", "function") {
            if let Some(name) = tool_function_name(tool) {
                let ghost old_names = names@;
                names.push(name.to_owned());
                assert(texts(names@) =~= texts(old_names).push(name@));
            }
        }
        i = i + 1;
    }
    assert(all.take(i as int) =~= all);
    names
}

/// The names that the upstream may call: those of the declared tools that the
/// body sent upstream still offers.
pub fn allowed_upstream_tool_names(
    declared_tools: &[JsonValue],
    upstream_body: &JsonValue,
) -> (r: NameSet)
    ensures
        r@ == callable_names(jsons_of(declared_tools@)).intersect(
            callable_names(upstream_body@.items_at("tools"@)),
        ),
{
    let declared = chat_tool_name_list(declared_tools);
    let actual = match upstream_body.get_array("tools") {
        Some(tools) => chat_tool_names(tools.as_slice()),
        None => {
            let none: Vec<JsonValue> = Vec::new();
            assert(jsons_of(none@) =~= Seq::empty());
            chat_tool_names(none.as_slice())
        },
    };
    let ghost all = texts(declared@);
    let mut names = NameSet::new();
    let mut i: usize = 0;
    assert(all.take(0).to_set().intersect(actual@) =~= Set::empty());
    while i < declared.len()
        invariant
            i <= declared@.len(),
            all == texts(declared@),
            names@ == all.take(i as int).to_set().intersect(actual@),
        decreases declared.len() - i,
    {
        proof {
            assert(all.take(i + 1) =~= all.take(i as int).push(all[i as int]));
            lemma_push_to_set(all.take(i as int), all[i as int]);
        }
        let name = declared[i].as_str();
        if actual.contains(name) {
            names.insert(name.to_owned());
        }
        assert(names@ =~= all.take(i + 1).to_set().intersect(actual@));
        i = i + 1;
    }
    assert(all.take(i as int) =~= all);
    names
}

/// The declared tool that a flat name stands for: its namespace, where it has
/// one, and its name.
pub open spec fn declared_tool(
    name: Seq<char>,
    ids: Map<Seq<char>, ToolId>,
) -> (Option<Seq<char>>, Seq<char>) {
    if ids.contains_key(name) {
        (Some(ids[name].0), ids[name].1)
    } else {
        (None, name)
    }
}

/// The declared tool that a flat name stands for.
pub fn response_function_name_for_responses(name: &str, namespace_tools: &NamespaceToolMap) -> (r: (
    Option<String>,
    String,
))
    ensures
        (opt_text(r.0), r.1@) == declared_tool(name@, namespace_ids(*namespace_tools)),
{
    match namespace_tools.get(name) {
        Some(tool) => (Some(tool.namespace.clone()), tool.name.clone()),
        None => (None, name.to_owned()),
    }
}

/// The flat name of the tool that a replayed call names.
pub open spec fn replayed_name(item: Json) -> Seq<char> {
    let name = item.str_or("name"@, ""@);
    let namespace = item.str_or("namespace"@, ""@);
    if namespace.len() == 0 {
        name
    } else {
        namespaced(namespace, name)
    }
}

/// The flat name of the tool that a replayed call names.
pub fn response_function_name_for_chat(item: &JsonValue) -> (r: String)
    ensures
        r@ == replayed_name(item@),
{
    let name = item.str_or("name", "");
    let namespace = item.str_or("namespace", "");
    if namespace.is_empty() {
        name.to_owned()
    } else {
        chat_function_name_for_namespace_tool(namespace, name)
    }
}

/// Whether a tool takes its arguments in plain text: the collaboration tools do.
pub open spec fn plaintext_arguments(namespace: Option<Seq<char>>, name: Seq<char>) -> bool {
    namespace == Some("collaboration"@) && (name == "spawn_agent"@ || name == "send_message"@ || name
        == "followup_task"@)
}

/// Whether a tool takes its arguments in plain text.
pub fn uses_plaintext_collaboration_args(namespace: Option<&str>, name: &str) -> (r: bool)
    ensures
        r == plaintext_arguments(opt_str(namespace), name@),
{
    match namespace {
        Some(namespace) => same_text(namespace, "collaboration") && (same_text(name, "spawn_agent")
            || same_text(name, "send_message") || same_text(name, "followup_task")),
        None => false,
    }
}

proof fn lemma_last_wins(entries: Seq<(Seq<char>, ToolId)>, key: Seq<char>)
    requires
        last_wins(entries).contains_key(key),
    ensures
        entries.contains((key, last_wins(entries)[key])),
    decreases entries.len(),
{
    let rest = entries.drop_last();
    let last = entries.last();
    if key == last.0 {
        assert(entries[entries.len() - 1] == (key, last.1));
    } else {
        lemma_last_wins(rest, key);
        let found = (key, last_wins(rest)[key]);
        let i = choose|i: int| 0 <= i < rest.len() && rest[i] == found;
        assert(entries[i] == found);
    }
}

/// Whether an entry for a function tool leads from its flat name, and is not denied.
spec fn fitting_entry(e: (Seq<char>, ToolId), denied: Set<Seq<char>>) -> bool {
    e.0 == namespaced(e.1.0, e.1.1) && !denied.contains(e.0)
}

spec fn fitting_entries(entries: Seq<(Seq<char>, ToolId)>, denied: Set<Seq<char>>) -> bool {
    forall|i: int| 0 <= i < entries.len() ==> fitting_entry(#[trigger] entries[i], denied)
}

proof fn lemma_child_entries_fit(namespace: Seq<char>, children: Seq<Json>, denied: Set<Seq<char>>)
    ensures
        fitting_entries(namespace_child_entries(namespace, children, denied), denied),
    decreases children.len(),
{
    if children.len() > 0 {
        lemma_child_entries_fit(namespace, children.drop_last(), denied);
    }
}

proof fn lemma_entries_fit(tools: Seq<Json>, denied: Set<Seq<char>>)
    ensures
        fitting_entries(namespace_entries(tools, denied), denied),
    decreases tools.len(),
{
    if tools.len() > 0 {
        lemma_entries_fit(tools.drop_last(), denied);
        if let Some(namespace) = tools.last().str_at("name"@) {
            lemma_child_entries_fit(namespace, tools.last().items_at("tools"@), denied);
        }
    }
}

/// A name in the map to function tools is the flat name of the tool that it
/// leads to, and is not denied.
pub proof fn namespace_map_leads_from_flat_names(
    tools: Seq<Json>,
    denied: Set<Seq<char>>,
    key: Seq<char>,
)
    requires
        last_wins(namespace_entries(tools, denied)).contains_key(key),
    ensures
        ({
            let id = last_wins(namespace_entries(tools, denied))[key];
            key == namespaced(id.0, id.1) && !denied.contains(key)
        }),
{
    let entries = namespace_entries(tools, denied);
    lemma_entries_fit(tools, denied);
    lemma_last_wins(entries, key);
    let i = choose|i: int| 0 <= i < entries.len() && entries[i] == (key, last_wins(entries)[key]);
    assert(fitting_entry(entries[i], denied));
}

spec fn own_names(entries: Seq<(Seq<char>, ToolId)>, denied: Set<Seq<char>>) -> bool {
    forall|i: int|
        0 <= i < entries.len() ==> (#[trigger] entries[i]).0 == entries[i].1.0 && !denied.contains(
            entries[i].0,
        )
}

proof fn lemma_custom_child_entries(children: Seq<Json>, denied: Set<Seq<char>>)
    ensures
        own_names(custom_child_entries(children, denied), denied),
    decreases children.len(),
{
    if children.len() > 0 {
        lemma_custom_child_entries(children.drop_last(), denied);
    }
}

proof fn lemma_custom_entries(tools: Seq<Json>, denied: Set<Seq<char>>)
    ensures
        own_names(custom_entries(tools, denied), denied),
    decreases tools.len(),
{
    if tools.len() > 0 {
        lemma_custom_entries(tools.drop_last(), denied);
        lemma_custom_child_entries(tools.last().items_at("tools"@), denied);
    }
}

/// A name in the map to custom tools is the name of the tool that it leads to,
/// and is not denied.
pub proof fn custom_map_leads_from_names(
    tools: Seq<Json>,
    denied: Set<Seq<char>>,
    key: Seq<char>,
)
    requires
        last_wins(custom_entries(tools, denied)).contains_key(key),
    ensures
        last_wins(custom_entries(tools, denied))[key].0 == key,
        !denied.contains(key),
{
    let entries = custom_entries(tools, denied);
    lemma_custom_entries(tools, denied);
    lemma_last_wins(entries, key);
    let i = choose|i: int| 0 <= i < entries.len() && entries[i] == (key, last_wins(entries)[key]);
    assert(entries[i].0 == entries[i].1.0);
}

/// Whether a function tool inside a namespace has a name in the flat form, and
/// a `function` member only where that is an object.
pub open spec fn plainly_named(child: Json) -> bool {
    child.has_str("type"@, "function"@) ==> child.str_at("name"@) is Some && (child.get(
        "function"@,
    ) matches Some(f) ==> f is Object)
}

/// Whether the function tools inside a namespace are plainly named.
pub open spec fn plainly_named_children(children: Seq<Json>) -> bool {
    forall|i: int| 0 <= i < children.len() ==> plainly_named(#[trigger] children[i])
}

/// Whether the function tools inside all namespaces are plainly named.
pub open spec fn plainly_named_tools(tools: Seq<Json>) -> bool {
    forall|i: int|
        0 <= i < tools.len() && (#[trigger] tools[i]).has_str("type"@, "namespace"@)
            ==> plainly_named_children(tools[i].items_at("tools"@))
}

/// The keys of some entries.
pub open spec fn entry_keys(entries: Seq<(Seq<char>, ToolId)>) -> Seq<Seq<char>> {
    entries.map_values(|e: (Seq<char>, ToolId)| e.0)
}

/// Whether the keys are among the names, and different where the names are.
spec fn covered(keys: Seq<Seq<char>>, names: Seq<Seq<char>>) -> bool {
    &&& forall|i: int| 0 <= i < keys.len() ==> names.contains(#[trigger] keys[i])
    &&& names.no_duplicates() ==> keys.no_duplicates()
}

proof fn lemma_covered_both(
    keys: Seq<Seq<char>>,
    names: Seq<Seq<char>>,
    more_keys: Seq<Seq<char>>,
    more_names: Seq<Seq<char>>,
)
    requires
        covered(keys, names),
        covered(more_keys, more_names),
    ensures
        covered(keys + more_keys, names + more_names),
{
    let ks = keys + more_keys;
    let ns = names + more_names;
    assert forall|i: int| 0 <= i < ks.len() implies ns.contains(#[trigger] ks[i]) by {
        if i < keys.len() {
            assert(names.contains(keys[i]));
            let j = choose|j: int| 0 <= j < names.len() && names[j] == keys[i];
            assert(ns[j] == ks[i]);
        } else {
            assert(more_names.contains(more_keys[i - keys.len()]));
            let j = choose|j: int|
                0 <= j < more_names.len() && more_names[j] == more_keys[i - keys.len()];
            assert(ns[names.len() + j] == ks[i]);
        }
    }
    if ns.no_duplicates() {
        assert(names.no_duplicates()) by {
            assert forall|i: int, j: int|
                0 <= i < names.len() && 0 <= j < names.len() && i != j implies names[i]
                != names[j] by {
                assert(ns[i] == names[i] && ns[j] == names[j]);
            }
        }
        assert(more_names.no_duplicates()) by {
            assert forall|i: int, j: int|
                0 <= i < more_names.len() && 0 <= j < more_names.len() && i != j implies
                more_names[i] != more_names[j] by {
                assert(ns[names.len() + i] == more_names[i] && ns[names.len() + j]
                    == more_names[j]);
            }
        }
        assert forall|a: int, b: int| 0 <= a < keys.len() && 0 <= b < more_keys.len() implies keys[a]
            != more_keys[b] by {
            assert(names.contains(keys[a]));
            assert(more_names.contains(more_keys[b]));
            let i = choose|i: int| 0 <= i < names.len() && names[i] == keys[a];
            let j = choose|j: int| 0 <= j < more_names.len() && more_names[j] == more_keys[b];
            assert(ns[i] == keys[a] && ns[names.len() + j] == more_keys[b]);
        }
        assert forall|i: int, j: int| 0 <= i < ks.len() && 0 <= j < ks.len() && i != j implies ks[i]
            != ks[j] by {
            if i < keys.len() && j < keys.len() {
                assert(ks[i] == keys[i] && ks[j] == keys[j]);
            } else if i < keys.len() {
                assert(keys[i] != more_keys[j - keys.len()]);
            } else if j < keys.len() {
                assert(keys[j] != more_keys[i - keys.len()]);
            } else {
                assert(more_keys[i - keys.len()] != more_keys[j - keys.len()]);
            }
        }
    }
}

proof fn lemma_function_names_both(a: Seq<Json>, b: Seq<Json>)
    ensures
        function_names(a + b) == function_names(a) + function_names(b),
    decreases b.len(),
{
    if b.len() == 0 {
        assert(a + b =~= a);
        assert(function_names(a) + function_names(b) =~= function_names(a));
    } else {
        assert((a + b).drop_last() =~= a + b.drop_last());
        lemma_function_names_both(a, b.drop_last());
        assert(function_names(a + b) =~= function_names(a) + function_names(b));
    }
}

/// The names that a tool inside a namespace adds.
spec fn child_names(namespace: Seq<char>, child: Json, denied: Set<Seq<char>>) -> Seq<Seq<char>> {
    match child_chat_tool(namespace, child, denied) {
        Some(tool) => match function_name(tool) {
            Some(name) => seq![name],
            None => Seq::empty(),
        },
        None => Seq::empty(),
    }
}

proof fn lemma_child_is_covered(namespace: Seq<char>, child: Json, denied: Set<Seq<char>>)
    requires
        plainly_named(child),
    ensures
        covered(
            entry_keys(with_entry(Seq::empty(), namespace_entry(namespace, child, denied))),
            child_names(namespace, child, denied),
        ),
{
    let keys = entry_keys(with_entry(Seq::empty(), namespace_entry(namespace, child, denied)));
    if let Some(e) = namespace_entry(namespace, child, denied) {
        chat_tool_name(child, Some(e.0));
        assert(child_chat_tool(namespace, child, denied) == Some(chat_tool(child, Some(e.0))));
        assert(keys =~= seq![e.0]);
        assert(child_names(namespace, child, denied)[0] == e.0);
    } else {
        assert(keys.len() == 0);
    }
}

proof fn lemma_children_are_covered(
    namespace: Seq<char>,
    children: Seq<Json>,
    denied: Set<Seq<char>>,
)
    requires
        plainly_named_children(children),
    ensures
        covered(
            entry_keys(namespace_child_entries(namespace, children, denied)),
            function_names(children_chat_tools(namespace, children, denied)),
        ),
    decreases children.len(),
{
    if children.len() > 0 {
        let rest = children.drop_last();
        let child = children.last();
        assert(plainly_named_children(rest)) by {
            assert forall|i: int| 0 <= i < rest.len() implies plainly_named(#[trigger] rest[i]) by {
                assert(rest[i] == children[i]);
            }
        }
        assert(plainly_named(children[children.len() - 1]));
        lemma_children_are_covered(namespace, rest, denied);
        lemma_child_is_covered(namespace, child, denied);
        let entries = namespace_child_entries(namespace, rest, denied);
        let entry = namespace_entry(namespace, child, denied);
        let tools = children_chat_tools(namespace, rest, denied);
        let one = entry_keys(with_entry(Seq::empty(), entry));
        let names = child_names(namespace, child, denied);
        lemma_covered_both(entry_keys(entries), function_names(tools), one, names);
        assert(entry_keys(with_entry(entries, entry)) =~= entry_keys(entries) + one);
        if let Some(tool) = child_chat_tool(namespace, child, denied) {
            assert(tools.push(tool).drop_last() =~= tools);
        }
        assert(function_names(children_chat_tools(namespace, children, denied)) =~= function_names(
            tools,
        ) + names);
    } else {
        assert(entry_keys(namespace_child_entries(namespace, children, denied)).len() == 0);
    }
}

proof fn lemma_tools_are_covered(tools: Seq<Json>, denied: Set<Seq<char>>)
    requires
        plainly_named_tools(tools),
    ensures
        covered(
            entry_keys(namespace_entries(tools, denied)),
            function_names(chat_tools(tools, denied)),
        ),
    decreases tools.len(),
{
    reveal_strlit("function");
    reveal_strlit("namespace");
    assert("function"@.len() == 8 && "namespace"@.len() == 9);
    if tools.len() > 0 {
        let rest = tools.drop_last();
        let tool = tools.last();
        assert(plainly_named_tools(rest)) by {
            assert forall|i: int|
                0 <= i < rest.len() && (#[trigger] rest[i]).has_str(
                    "type"@,
                    "namespace"@,
                ) implies plainly_named_children(rest[i].items_at("tools"@)) by {
                assert(rest[i] == tools[i]);
            }
        }
        assert(tool == tools[tools.len() - 1]);
        lemma_tools_are_covered(rest, denied);
        let entries = namespace_tool_entries(tool, denied);
        let converted = expanded_tool(tool, denied);
        assert(covered(entry_keys(entries), function_names(converted))) by {
            if tool.str_at("name"@) is Some && tool.has_str("type"@, "namespace"@) {
                lemma_children_are_covered(
                    tool.str_at("name"@)->0,
                    tool.items_at("tools"@),
                    denied,
                );
            } else {
                assert(entry_keys(entries).len() == 0);
            }
        }
        let before = namespace_entries(rest, denied);
        lemma_covered_both(
            entry_keys(before),
            function_names(chat_tools(rest, denied)),
            entry_keys(entries),
            function_names(converted),
        );
        lemma_function_names_both(chat_tools(rest, denied), converted);
        assert(entry_keys(before + entries) =~= entry_keys(before) + entry_keys(entries));
    } else {
        assert(entry_keys(namespace_entries(tools, denied)).len() == 0);
    }
}

proof fn lemma_distinct_keys_win(entries: Seq<(Seq<char>, ToolId)>, i: int)
    requires
        entry_keys(entries).no_duplicates(),
        0 <= i < entries.len(),
    ensures
        last_wins(entries).contains_key(entries[i].0),
        last_wins(entries)[entries[i].0] == entries[i].1,
    decreases entries.len(),
{
    let keys = entry_keys(entries);
    let rest = entries.drop_last();
    if i < entries.len() - 1 {
        assert forall|a: int, b: int|
            0 <= a < rest.len() && 0 <= b < rest.len() && a != b implies entry_keys(rest)[a]
            != entry_keys(rest)[b] by {
            assert(keys[a] == entry_keys(rest)[a] && keys[b] == entry_keys(rest)[b]);
        }
        lemma_distinct_keys_win(rest, i);
        assert(rest[i] == entries[i]);
        assert(keys[i] != keys[entries.len() - 1]);
    }
}

proof fn lemma_child_entry_is_listed(
    namespace: Seq<char>,
    children: Seq<Json>,
    denied: Set<Seq<char>>,
    j: int,
)
    requires
        0 <= j < children.len(),
        namespace_entry(namespace, children[j], denied) is Some,
    ensures
        namespace_child_entries(namespace, children, denied).contains(
            namespace_entry(namespace, children[j], denied)->0,
        ),
    decreases children.len(),
{
    let e = namespace_entry(namespace, children[j], denied)->0;
    let rest = children.drop_last();
    let before = namespace_child_entries(namespace, rest, denied);
    let after = namespace_child_entries(namespace, children, denied);
    if j == children.len() - 1 {
        assert(after.last() == e);
    } else {
        assert(rest[j] == children[j]);
        lemma_child_entry_is_listed(namespace, rest, denied, j);
        let k = choose|k: int| 0 <= k < before.len() && before[k] == e;
        assert(after[k] == e);
    }
}

proof fn lemma_tool_entries_are_listed(
    tools: Seq<Json>,
    denied: Set<Seq<char>>,
    i: int,
    e: (Seq<char>, ToolId),
)
    requires
        0 <= i < tools.len(),
        namespace_tool_entries(tools[i], denied).contains(e),
    ensures
        namespace_entries(tools, denied).contains(e),
    decreases tools.len(),
{
    let rest = tools.drop_last();
    let before = namespace_entries(rest, denied);
    let own = namespace_tool_entries(tools.last(), denied);
    let after = namespace_entries(tools, denied);
    if i == tools.len() - 1 {
        let k = choose|k: int| 0 <= k < own.len() && own[k] == e;
        assert(after[before.len() + k] == e);
    } else {
        assert(rest[i] == tools[i]);
        lemma_tool_entries_are_listed(rest, denied, i, e);
        let k = choose|k: int| 0 <= k < before.len() && before[k] == e;
        assert(after[k] == e);
    }
}

/// Where no two tools have one flat name, and the functions in namespaces are
/// plainly named, every such function that reaches the upstream has its flat
/// name there, and that name leads back to it.
pub proof fn distinct_names_lead_back(tools: Seq<Json>, denied: Set<Seq<char>>, i: int, j: int)
    requires
        first_repeat(function_names(chat_tools(tools, denied))) is None,
        plainly_named_tools(tools),
        0 <= i < tools.len(),
        tools[i].has_str("type"@, "namespace"@),
        tools[i].str_at("name"@) is Some,
        0 <= j < tools[i].items_at("tools"@).len(),
        tools[i].items_at("tools"@)[j].has_str("type"@, "function"@),
        child_chat_tool(
            tools[i].str_at("name"@)->0,
            tools[i].items_at("tools"@)[j],
            denied,
        ) is Some,
    ensures
        ({
            let namespace = tools[i].str_at("name"@)->0;
            let child = tools[i].items_at("tools"@)[j];
            let name = child.str_at("name"@)->0;
            let flat = namespaced(namespace, name);
            &&& function_name(child_chat_tool(namespace, child, denied)->0) == Some(flat)
            &&& declared_tool(flat, last_wins(namespace_entries(tools, denied))) == (
                Some(namespace),
                name,
            )
        }),
{
    let namespace = tools[i].str_at("name"@)->0;
    let children = tools[i].items_at("tools"@);
    let child = children[j];
    assert(plainly_named_children(tools[i].items_at("tools"@)));
    assert(plainly_named(children[j]));
    let name = child.str_at("name"@)->0;
    let flat = namespaced(namespace, name);
    let e = (flat, (namespace, name));
    chat_tool_name(child, Some(flat));
    assert(namespace_entry(namespace, child, denied) == Some(e));
    lemma_child_entry_is_listed(namespace, children, denied, j);
    lemma_tool_entries_are_listed(tools, denied, i, e);
    let entries = namespace_entries(tools, denied);
    let k = choose|k: int| 0 <= k < entries.len() && entries[k] == e;
    no_repeat_means_distinct(function_names(chat_tools(tools, denied)));
    lemma_tools_are_covered(tools, denied);
    lemma_distinct_keys_win(entries, k);
}

spec fn usual_fields(entries: Seq<(Seq<char>, ToolId)>) -> bool {
    forall|i: int|
        0 <= i < entries.len() && (#[trigger] entries[i]).0 != "apply_patch"@ ==> entries[i].1 == (
            entries[i].0,
            "input"@,
        )
}

proof fn lemma_usual_child_fields(children: Seq<Json>, denied: Set<Seq<char>>)
    ensures
        usual_fields(custom_child_entries(children, denied)),
    decreases children.len(),
{
    if children.len() > 0 {
        lemma_usual_child_fields(children.drop_last(), denied);
    }
}

proof fn lemma_usual_fields(tools: Seq<Json>, denied: Set<Seq<char>>)
    ensures
        usual_fields(custom_entries(tools, denied)),
    decreases tools.len(),
{
    if tools.len() > 0 {
        lemma_usual_fields(tools.drop_last(), denied);
        lemma_usual_child_fields(tools.last().items_at("tools"@), denied);
    }
}

proof fn lemma_listed_keys_are_kept(entries: Seq<(Seq<char>, ToolId)>, i: int)
    requires
        0 <= i < entries.len(),
    ensures
        last_wins(entries).contains_key(entries[i].0),
    decreases entries.len(),
{
    if i < entries.len() - 1 {
        assert(entries.drop_last()[i] == entries[i]);
        lemma_listed_keys_are_kept(entries.drop_last(), i);
    }
}

/// Every custom tool is found under its name, whatever else is declared, and
/// takes its input in the field `input`, but for `apply_patch`.
pub proof fn custom_tools_are_found(tools: Seq<Json>, denied: Set<Seq<char>>, i: int)
    requires
        0 <= i < custom_entries(tools, denied).len(),
        custom_entries(tools, denied)[i].0 != "apply_patch"@,
    ensures
        ({
            let name = custom_entries(tools, denied)[i].0;
            let found = last_wins(custom_entries(tools, denied));
            found.contains_key(name) && found[name] == (name, "input"@)
        }),
{
    let entries = custom_entries(tools, denied);
    let name = entries[i].0;
    lemma_usual_fields(tools, denied);
    lemma_listed_keys_are_kept(entries, i);
    lemma_last_wins(entries, name);
    let k = choose|k: int| 0 <= k < entries.len() && entries[k] == (name, last_wins(entries)[name]);
    assert(entries[k].0 != "apply_patch"@);
}

} // verus!
