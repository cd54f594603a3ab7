//! Tool calls: their arguments and the checks on what the upstream calls.
use vstd::prelude::*;

use crate::env::NameSet;
use crate::json::{Json, JsonMap, JsonValue, json_text, jsons_of, parsed_json};
use crate::text::{blank_text, is_blank};
use crate::types::{ChatMessage, Message};

verus! {

/// The arguments of a completed call: an empty object where there are none.
pub open spec fn completed(arguments: Seq<char>) -> Seq<char> {
    if blank_text(arguments) {
        "{}"@
    } else {
        arguments
    }
}

/// The arguments of a completed call.
///
/// Chat Completions providers may leave out the arguments of a function whose
/// schema has no parameters; a completed item and a replayed message still
/// need valid JSON there.
pub fn completed_tool_arguments(arguments: &str) -> (r: &str)
    ensures
        r@ == completed(arguments@),
{
    if is_blank(arguments) {
        "{}"
    } else {
        arguments
    }
}

/// Whether the arguments in a `function` member are missing or blank.
pub open spec fn lacks_arguments(function: Map<Seq<char>, Json>) -> bool {
    if function.contains_key("arguments"@) {
        function["arguments"@] matches Json::String(s) && blank_text(s)
    } else {
        true
    }
}

/// A tool call whose `function` member, where it has one, has arguments.
pub open spec fn completed_call(call: Json) -> Json {
    match call {
        Json::Object(m) => match call.get("function"@) {
            Some(Json::Object(function)) => if lacks_arguments(function) {
                Json::Object(
                    m.insert(
                        "function"@,
                        Json::Object(function.insert("arguments"@, Json::String("{}"@))),
                    ),
                )
            } else {
                call
            },
            _ => call,
        },
        _ => call,
    }
}

/// A message whose tool calls have arguments.
pub open spec fn completed_message(message: Message) -> Message {
    match message.tool_calls {
        Some(calls) => Message {
            tool_calls: Some(calls.map_values(|call: Json| completed_call(call))),
            ..message
        },
        None => message,
    }
}

fn complete_call(call: JsonValue) -> (r: JsonValue)
    ensures
        r@ == completed_call(call@),
{
    let lacking = match call.get("function") {
        Some(JsonValue::Object(function)) => match function.get("arguments") {
            Some(JsonValue::String(s)) => is_blank(s.as_str()),
            Some(_) => false,
            None => true,
        },
        _ => false,
    };
    match call {
        JsonValue::Object(mut m) => {
            if lacking {
                if let Some(JsonValue::Object(mut function)) = m.remove("function") {
                    function.insert("arguments".to_owned(), JsonValue::text("{}"));
                    m.insert("function".to_owned(), JsonValue::Object(function));
                }
                assert(m@ =~= completed_call(call@)->Object_0);
            }
            JsonValue::Object(m)
        },
        other => other,
    }
}

/// Gives the tool calls of a message the arguments that they lack.
pub fn complete_message_tool_arguments(message: &mut ChatMessage)
    ensures
        final(message)@ == completed_message(old(message)@),
{
    if let Some(mut calls) = message.tool_calls.take() {
        let ghost all = jsons_of(calls@);
        let mut i: usize = 0;
        while i < calls.len()
            invariant
                i <= calls@.len() == all.len(),
                forall|j: int| 0 <= j < i ==> (#[trigger] calls@[j])@ == completed_call(all[j]),
                forall|j: int| i <= j < calls@.len() ==> (#[trigger] calls@[j])@ == all[j],
            decreases calls.len() - i,
        {
            let mut call = JsonValue::Null;
            std::mem::swap(&mut call, &mut calls[i]);
            calls[i] = complete_call(call);
            i = i + 1;
        }
        assert(jsons_of(calls@) =~= all.map_values(|call: Json| completed_call(call)));
        message.tool_calls = Some(calls);
    }
}

/// What a completed call lacks no longer: completing it again changes nothing.
pub proof fn completing_a_call_again_changes_nothing(call: Json)
    ensures
        completed_call(completed_call(call)) == completed_call(call),
{
    reveal_strlit("{}");
    if let Json::Object(m) = call {
        if let Some(Json::Object(function)) = call.get("function"@) {
            if lacks_arguments(function) {
                let once = function.insert("arguments"@, Json::String("{}"@));
                assert(!crate::text::is_white_space("{}"@[0]));
                assert(!lacks_arguments(once));
            }
        }
    }
}

/// The arguments of a completed call are never blank, and arguments that are
/// not blank stay as they are.
pub proof fn completed_arguments_are_not_blank(arguments: Seq<char>)
    ensures
        !blank_text(completed(arguments)),
        !blank_text(arguments) ==> completed(arguments) == arguments,
{
    reveal_strlit("{}");
    assert(!crate::text::is_white_space("{}"@[0]));
}

/// The input of a custom tool: the text in the argument field, or the whole
/// arguments where no text stands there.
pub open spec fn custom_input(arguments: Seq<char>, field: Seq<char>) -> Seq<char> {
    input_or(parsed_json(arguments), arguments, field)
}

/// The text in a field of what was read, or else the whole arguments.
pub open spec fn input_or(
    read: Option<Json>,
    arguments: Seq<char>,
    field: Seq<char>,
) -> Seq<char> {
    match read {
        Some(value) => value.str_or(field, arguments),
        None => arguments,
    }
}

/// The text in a field of what was read, or else the whole arguments.
pub fn custom_input_or(read: &Option<JsonValue>, arguments: &str, field: &str) -> (r: String)
    ensures
        r@ == input_or(crate::types::opt_json(*read), arguments@, field@),
{
    match read {
        Some(value) => value.str_or(field, arguments).to_owned(),
        None => arguments.to_owned(),
    }
}

/// The input of a custom tool, out of the arguments of a call.
pub fn custom_tool_input(arguments: &str, argument_field: &str) -> (r: String)
    ensures
        r@ == custom_input(arguments@, argument_field@),
{
    let read = JsonValue::parse(arguments);
    custom_input_or(&read, arguments, argument_field)
}

/// An object with one member.
pub open spec fn one_member(field: Seq<char>, value: Json) -> Json {
    Json::Object(Map::<Seq<char>, Json>::empty().insert(field, value))
}

/// The arguments that carry the input of a custom tool: the text of an object
/// whose only member is the input. Where the input is a string, it is read
/// back from these arguments as it was.
pub fn custom_arguments(field: &str, input: JsonValue) -> (r: String)
    ensures
        r@ == json_text(one_member(field@, input@)),
        input@ matches Json::String(s) ==> custom_input(r@, field@) == s,
{
    let mut members = JsonMap::new();
    members.insert(field.to_owned(), input);
    JsonValue::Object(members).to_text()
}

/// The calls that the upstream made, as pairs of call ID and name.
pub open spec fn entry_texts<'a>(entries: Seq<(&'a str, &'a str)>) -> Seq<(Seq<char>, Seq<char>)> {
    entries.map_values(|e: (&'a str, &'a str)| (e.0@, e.1@))
}

/// The IDs of some calls.
pub open spec fn entry_ids(entries: Seq<(Seq<char>, Seq<char>)>) -> Seq<Seq<char>> {
    entries.map_values(|e: (Seq<char>, Seq<char>)| e.0)
}

/// What is wrong with one call, given the IDs of the calls before it.
pub open spec fn entry_error(
    earlier: Seq<Seq<char>>,
    entry: (Seq<char>, Seq<char>),
    allowed: Set<Seq<char>>,
) -> Option<Seq<char>> {
    if entry.0.len() == 0 {
        Some("upstream returned an empty tool call ID"@)
    } else if earlier.contains(entry.0) {
        Some("upstream returned duplicate tool call IDs"@)
    } else if entry.1.len() == 0 || !allowed.contains(entry.1) {
        Some("upstream returned an undeclared tool call"@)
    } else {
        None
    }
}

/// What is wrong with the first call that has something wrong.
pub open spec fn entries_error(
    entries: Seq<(Seq<char>, Seq<char>)>,
    allowed: Set<Seq<char>>,
) -> Option<Seq<char>>
    decreases entries.len(),
{
    if entries.len() == 0 {
        None
    } else {
        match entries_error(entries.drop_last(), allowed) {
            Some(e) => Some(e),
            None => entry_error(entry_ids(entries.drop_last()), entries.last(), allowed),
        }
    }
}

pub(crate) proof fn lemma_error_stays(
    entries: Seq<(Seq<char>, Seq<char>)>,
    allowed: Set<Seq<char>>,
    n: int,
)
    requires
        0 <= n <= entries.len(),
        entries_error(entries.take(n), allowed) is Some,
    ensures
        entries_error(entries, allowed) == entries_error(entries.take(n), allowed),
    decreases entries.len(),
{
    if n == entries.len() {
        assert(entries.take(n) =~= entries);
    } else {
        assert(entries.drop_last().take(n) =~= entries.take(n));
        lemma_error_stays(entries.drop_last(), allowed, n);
    }
}

/// Checks the tool calls of the upstream: each has an ID of its own and calls
/// a tool that the upstream may call.
pub fn validate_tool_call_entries(
    entries: &[(&str, &str)],
    allowed_names: &NameSet,
) -> (r: Result<(), &'static str>)
    ensures
        match entries_error(entry_texts(entries@), allowed_names@) {
            Some(e) => r matches Err(m) && m@ == e,
            None => r is Ok,
        },
{
    let ghost all = entry_texts(entries@);
    let mut call_ids = NameSet::new();
    let mut i: usize = 0;
    assert(all.take(0) =~= Seq::empty());
    assert(entry_ids(all.take(0)).to_set() =~= Set::empty());
    while i < entries.len()
        invariant
            i <= entries@.len(),
            all == entry_texts(entries@),
            entries_error(all.take(i as int), allowed_names@) is None,
            call_ids@ == entry_ids(all.take(i as int)).to_set(),
        decreases entries.len() - i,
    {
        let (call_id, name) = entries[i];
        let ghost earlier = entry_ids(all.take(i as int));
        proof {
            assert(all.take(i + 1).drop_last() =~= all.take(i as int));
            assert(all.take(i + 1).last() == (call_id@, name@));
            assert(entry_ids(all.take(i + 1)) =~= earlier.push(call_id@));
            crate::text::lemma_push_to_set(earlier, call_id@);
            assert(earlier.to_set().contains(call_id@) == earlier.contains(call_id@));
            if entries_error(all.take(i + 1), allowed_names@) is Some {
                lemma_error_stays(all, allowed_names@, i + 1);
            }
        }
        if call_id.is_empty() {
            return Err("upstream returned an empty tool call ID");
        }
        if !call_ids.insert(call_id.to_owned()) {
            return Err("upstream returned duplicate tool call IDs");
        }
        if name.is_empty() || !allowed_names.contains(name) {
            return Err("upstream returned an undeclared tool call");
        }
        i = i + 1;
    }
    assert(all.take(i as int) =~= all);
    Ok(())
}

/// Tool calls pass the check exactly when every ID is non-empty and stands
/// once, and every name is non-empty and allowed.
pub proof fn checked_calls_are_distinct_and_allowed(
    entries: Seq<(Seq<char>, Seq<char>)>,
    allowed: Set<Seq<char>>,
)
    ensures
        entries_error(entries, allowed) is None <==> {
            &&& entry_ids(entries).no_duplicates()
            &&& forall|i: int|
                0 <= i < entries.len() ==> {
                    &&& (#[trigger] entries[i]).0.len() > 0
                    &&& entries[i].1.len() > 0
                    &&& allowed.contains(entries[i].1)
                }
        },
    decreases entries.len(),
{
    if entries.len() > 0 {
        let rest = entries.drop_last();
        let ids = entry_ids(entries);
        let rest_ids = entry_ids(rest);
        checked_calls_are_distinct_and_allowed(rest, allowed);
        assert(rest_ids =~= ids.drop_last());
        assert(forall|i: int| 0 <= i < rest.len() ==> #[trigger] rest[i] == entries[i]);
        if entries_error(entries, allowed) is None {
            assert forall|i: int, j: int|
                0 <= i < ids.len() && 0 <= j < ids.len() && i != j implies ids[i] != ids[j] by {
                if i == ids.len() - 1 {
                    assert(rest_ids[j] == ids[j]);
                } else if j == ids.len() - 1 {
                    assert(rest_ids[i] == ids[i]);
                } else {
                    assert(rest_ids[i] == ids[i] && rest_ids[j] == ids[j]);
                }
            }
            assert forall|i: int| 0 <= i < entries.len() implies {
                &&& (#[trigger] entries[i]).0.len() > 0
                &&& entries[i].1.len() > 0
                &&& allowed.contains(entries[i].1)
            } by {
                if i < rest.len() {
                    assert(rest[i] == entries[i]);
                }
            }
        }
        if ids.no_duplicates() && (forall|i: int|
            0 <= i < entries.len() ==> {
                &&& (#[trigger] entries[i]).0.len() > 0
                &&& entries[i].1.len() > 0
                &&& allowed.contains(entries[i].1)
            }) {
            assert forall|i: int, j: int|
                0 <= i < rest_ids.len() && 0 <= j < rest_ids.len() && i != j implies rest_ids[i]
                != rest_ids[j] by {
                assert(rest_ids[i] == ids[i] && rest_ids[j] == ids[j]);
            }
            assert(entries[entries.len() - 1].0.len() > 0);
            if rest_ids.contains(ids.last()) {
                let i = choose|i: int| 0 <= i < rest_ids.len() && rest_ids[i] == ids.last();
                assert(ids[i] == ids[ids.len() - 1]);
            }
        }
    }
}

} // verus!
