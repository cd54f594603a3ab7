//! Removing `$ref` nodes from tool schemas.
use vstd::prelude::*;

use crate::json::{Json, JsonMap, JsonValue, all_finite, jsons_of, lists_are_finite};
use crate::text::texts;

verus! {

/// A value in which every object that has a `$ref` member, and that lies in no
/// other such object, is replaced by an empty one.
pub open spec fn stripped(v: Json) -> Json
    decreases v,
{
    match v {
        Json::Object(m) => if m.contains_key("$ref"@) {
            Json::Object(Map::empty())
        } else {
            Json::Object(stripped_members(m))
        },
        Json::Array(items) => Json::Array(stripped_items(items)),
        _ => v,
    }
}

/// The members of an object, each without its `$ref` nodes.
pub open spec fn stripped_members(m: Map<Seq<char>, Json>) -> Map<Seq<char>, Json>
    decreases m,
{
    Map::new(
        |k: Seq<char>| m.contains_key(k),
        |k: Seq<char>|
            if m.dom().finite() && m.contains_key(k) {
                stripped(m[k])
            } else {
                Json::Null
            },
    )
}

/// The items of an array, each without its `$ref` nodes.
pub open spec fn stripped_items(items: Seq<Json>) -> Seq<Json>
    decreases items,
{
    Seq::new(
        items.len(),
        |i: int|
            if 0 <= i < items.len() {
                stripped(items[i])
            } else {
                Json::Null
            },
    )
}

/// The number of objects that [`stripped`] replaces.
pub open spec fn ref_count(v: Json) -> nat
    decreases v,
{
    match v {
        Json::Object(m) => if m.contains_key("$ref"@) {
            1
        } else {
            m.dom().fold(0nat, ref_adder(m))
        },
        Json::Array(items) => ref_sum(items),
        _ => 0,
    }
}

/// Adds the number for the member under a key.
pub open spec fn ref_adder(m: Map<Seq<char>, Json>) -> spec_fn(nat, Seq<char>) -> nat
    decreases m,
{
    |n: nat, k: Seq<char>|
        if m.dom().finite() && m.contains_key(k) {
            n + ref_count(m[k])
        } else {
            n
        }
}

/// The sum of the numbers for some values.
pub open spec fn ref_sum(items: Seq<Json>) -> nat
    decreases items,
{
    if items.len() == 0 {
        0
    } else {
        ref_count(items[0]) + ref_sum(items.drop_first())
    }
}

/// Whether no object anywhere in a value has a `$ref` member.
pub open spec fn ref_free(v: Json) -> bool
    decreases v,
{
    match v {
        Json::Object(m) => {
            &&& !m.contains_key("$ref"@)
            &&& forall|k: Seq<char>| #[trigger]
                m.contains_key(k) ==> (m.dom().finite() && m.contains_key(k) && ref_free(m[k]))
        },
        Json::Array(items) => forall|i: int|
            0 <= i < items.len() ==> (0 <= i < items.len() && ref_free(#[trigger] items[i])),
        _ => true,
    }
}

/// Whether no object anywhere in some values has a `$ref` member.
pub open spec fn all_ref_free(items: Seq<Json>) -> bool {
    forall|i: int| 0 <= i < items.len() ==> ref_free(#[trigger] items[i])
}

proof fn lemma_adder_commutes(m: Map<Seq<char>, Json>)
    ensures
        vstd::set::fold::is_fun_commutative(ref_adder(m)),
{
}

proof fn lemma_skip_to_set(names: Seq<Seq<char>>, i: int)
    requires
        names.no_duplicates(),
        0 <= i < names.len(),
    ensures
        names.skip(i).to_set() == names.skip(i + 1).to_set().insert(names[i]),
        !names.skip(i + 1).to_set().contains(names[i]),
        names.skip(i + 1).to_set().finite(),
{
    let here = names.skip(i);
    let rest = names.skip(i + 1);
    assert(here[0] == names[i]);
    assert forall|k: Seq<char>| here.contains(k) == (rest.contains(k) || k == names[i]) by {
        if here.contains(k) {
            let j = choose|j: int| 0 <= j < here.len() && here[j] == k;
            if j > 0 {
                assert(rest[j - 1] == k);
            }
        }
        if rest.contains(k) {
            let j = choose|j: int| 0 <= j < rest.len() && rest[j] == k;
            assert(here[j + 1] == k);
        }
    }
    assert(here.to_set() =~= rest.to_set().insert(names[i]));
    if rest.contains(names[i]) {
        let j = choose|j: int| 0 <= j < rest.len() && rest[j] == names[i];
        assert(names[i + 1 + j] == names[i]);
    }
    vstd::seq_lib::seq_to_set_is_finite(rest);
}

/// Replaces the `$ref` nodes of a value by empty objects, and counts them.
fn strip_schema_refs(value: &mut JsonValue) -> (n: usize)
    requires
        ref_count(old(value)@) <= usize::MAX,
    ensures
        final(value)@ == stripped(old(value)@),
        n == ref_count(old(value)@),
    decreases old(value)@,
{
    let mut taken = JsonValue::Null;
    std::mem::swap(&mut taken, value);
    match taken {
        JsonValue::Object(mut m) => {
            if m.contains_key("$ref") {
                *value = JsonValue::Object(JsonMap::new());
                return 1;
            }
            let ghost members = m@;
            let keys = m.keys();
            let ghost names = texts(keys@);
            let ghost add_refs = ref_adder(members);
            let mut n: usize = 0;
            let mut i: usize = 0;
            proof {
                lemma_adder_commutes(members);
                vstd::seq_lib::seq_to_set_is_finite(names);
                assert(names.skip(0) =~= names);
            }
            while i < keys.len()
                invariant
                    old(value)@ == Json::Object(members),
                    ref_count(old(value)@) <= usize::MAX,
                    members.dom().finite(),
                    names == texts(keys@),
                    names.no_duplicates(),
                    names.to_set() == members.dom(),
                    add_refs == ref_adder(members),
                    vstd::set::fold::is_fun_commutative(add_refs),
                    i <= keys@.len(),
                    m@.dom() == members.dom(),
                    forall|j: int|
                        0 <= j < i ==> m@[#[trigger] names[j]] == stripped(members[names[j]]),
                    forall|j: int|
                        i <= j < names.len() ==> m@[#[trigger] names[j]] == members[names[j]],
                    ref_count(old(value)@) == n + names.skip(i as int).to_set().fold(
                        0nat,
                        add_refs,
                    ),
                decreases keys.len() - i,
            {
                let ghost name = names[i as int];
                let ghost rest = names.skip(i + 1).to_set();
                proof {
                    assert(names.to_set().contains(name));
                    lemma_skip_to_set(names, i as int);
                    vstd::set::fold::lemma_fold_insert(rest, 0nat, add_refs, name);
                    assert(decreases_to!(members => members[name]));
                }
                if let Some(mut member) = m.remove(keys[i].as_str()) {
                    let found = strip_schema_refs(&mut member);
                    n = n + found;
                    m.insert(keys[i].clone(), member);
                }
                i = i + 1;
            }
            proof {
                vstd::set::fold::lemma_fold_empty(0nat, add_refs);
                assert(names.skip(i as int).to_set() =~= Set::empty());
                assert forall|k: Seq<char>| members.contains_key(k) implies m@[k]
                    == stripped_members(members)[k] by {
                    assert(names.to_set().contains(k));
                    let j = choose|j: int| 0 <= j < names.len() && names[j] == k;
                    assert(m@[names[j]] == stripped(members[names[j]]));
                }
                assert(m@ =~= stripped_members(members));
            }
            *value = JsonValue::Object(m);
            n
        },
        JsonValue::Array(mut items) => {
            let n = strip_tool_schema_refs(items.as_mut_slice());
            *value = JsonValue::Array(items);
            n
        },
        other => {
            *value = other;
            0
        },
    }
}

/// Removes the `$ref` schema nodes from tools, for providers that reject
/// recursive or otherwise unsupported JSON Schema references, and counts them.
pub fn strip_tool_schema_refs(tools: &mut [JsonValue]) -> (n: usize)
    requires
        ref_sum(jsons_of(old(tools)@)) <= usize::MAX,
    ensures
        jsons_of(final(tools)@) == stripped_items(jsons_of(old(tools)@)),
        n == ref_sum(jsons_of(old(tools)@)),
        final(tools)@.len() == old(tools)@.len(),
        all_ref_free(jsons_of(final(tools)@)),
        ref_sum(jsons_of(final(tools)@)) == 0,
        n == 0 <==> jsons_of(final(tools)@) == jsons_of(old(tools)@),
    decreases jsons_of(old(tools)@),
{
    let ghost all = jsons_of(tools@);
    let mut n: usize = 0;
    let mut i: usize = 0;
    assert(all.skip(0) =~= all);
    while i < tools.len()
        invariant
            all == jsons_of(old(tools)@),
            ref_sum(all) <= usize::MAX,
            i <= tools@.len() == all.len(),
            forall|j: int| 0 <= j < i ==> (#[trigger] tools@[j])@ == stripped(all[j]),
            forall|j: int| i <= j < all.len() ==> (#[trigger] tools@[j])@ == all[j],
            ref_sum(all) == n + ref_sum(all.skip(i as int)),
        decreases tools.len() - i,
    {
        let mut item = JsonValue::Null;
        std::mem::swap(&mut item, &mut tools[i]);
        proof {
            assert(all.skip(i as int).drop_first() =~= all.skip(i + 1));
            assert(decreases_to!(all => all[i as int]));
        }
        let found = strip_schema_refs(&mut item);
        n = n + found;
        tools[i] = item;
        i = i + 1;
    }
    assert(jsons_of(tools@) =~= stripped_items(all));
    proof {
        lists_are_finite(old(tools)@);
        stripping_tools_removes_the_refs(all);
    }
    n
}

/// Counts the `$ref` nodes of a value, where the machine can hold the number.
pub fn count_schema_refs(value: &JsonValue) -> (r: Option<usize>)
    ensures
        match r {
            Some(n) => n == ref_count(value@),
            None => ref_count(value@) > usize::MAX,
        },
    decreases value@,
{
    match value {
        JsonValue::Object(m) => {
            if m.contains_key("$ref") {
                return Some(1);
            }
            let ghost members = m@;
            let keys = m.keys();
            let ghost names = texts(keys@);
            let ghost add_refs = ref_adder(members);
            let mut n: usize = 0;
            let mut i: usize = 0;
            proof {
                lemma_adder_commutes(members);
                vstd::seq_lib::seq_to_set_is_finite(names);
                assert(names.skip(0) =~= names);
            }
            while i < keys.len()
                invariant
                    value@ == Json::Object(members),
                    members == m@,
                    members.dom().finite(),
                    names == texts(keys@),
                    names.no_duplicates(),
                    names.to_set() == members.dom(),
                    add_refs == ref_adder(members),
                    vstd::set::fold::is_fun_commutative(add_refs),
                    i <= keys@.len(),
                    ref_count(value@) == n + names.skip(i as int).to_set().fold(0nat, add_refs),
                decreases keys.len() - i,
            {
                let ghost name = names[i as int];
                let ghost rest = names.skip(i + 1).to_set();
                proof {
                    assert(names.to_set().contains(name));
                    lemma_skip_to_set(names, i as int);
                    vstd::set::fold::lemma_fold_insert(rest, 0nat, add_refs, name);
                    assert(decreases_to!(members => members[name]));
                }
                if let Some(member) = m.get(keys[i].as_str()) {
                    match count_schema_refs(member) {
                        Some(found) => {
                            if found > usize::MAX - n {
                                return None;
                            }
                            n = n + found;
                        },
                        None => {
                            return None;
                        },
                    }
                }
                i = i + 1;
            }
            proof {
                vstd::set::fold::lemma_fold_empty(0nat, add_refs);
                assert(names.skip(i as int).to_set() =~= Set::empty());
            }
            Some(n)
        },
        JsonValue::Array(items) => {
            assert(decreases_to!(value@ => value@->Array_0));
            count_tool_schema_refs(items.as_slice())
        },
        _ => Some(0),
    }
}

/// Counts the `$ref` nodes of some values, where the machine can hold the number.
pub fn count_tool_schema_refs(tools: &[JsonValue]) -> (r: Option<usize>)
    ensures
        match r {
            Some(n) => n == ref_sum(jsons_of(tools@)),
            None => ref_sum(jsons_of(tools@)) > usize::MAX,
        },
    decreases jsons_of(tools@),
{
    let ghost all = jsons_of(tools@);
    let mut n: usize = 0;
    let mut i: usize = 0;
    assert(all.skip(0) =~= all);
    while i < tools.len()
        invariant
            all == jsons_of(tools@),
            i <= tools@.len(),
            ref_sum(all) == n + ref_sum(all.skip(i as int)),
        decreases tools.len() - i,
    {
        proof {
            assert(all.skip(i as int).drop_first() =~= all.skip(i + 1));
            assert(decreases_to!(all => all[i as int]));
        }
        match count_schema_refs(&tools[i]) {
            Some(found) => {
                if found > usize::MAX - n {
                    return None;
                }
                n = n + found;
            },
            None => {
                return None;
            },
        }
        i = i + 1;
    }
    Some(n)
}

/// Removes the `$ref` schema nodes from tools, and counts them, where the
/// machine can hold the number; else leaves the tools as they are.
pub fn try_strip_tool_schema_refs(tools: &mut [JsonValue]) -> (r: Option<usize>)
    ensures
        match r {
            Some(n) => {
                &&& jsons_of(final(tools)@) == stripped_items(jsons_of(old(tools)@))
                &&& n == ref_sum(jsons_of(old(tools)@))
                &&& all_ref_free(jsons_of(final(tools)@))
                &&& ref_sum(jsons_of(final(tools)@)) == 0
                &&& n == 0 <==> jsons_of(final(tools)@) == jsons_of(old(tools)@)
            },
            None => {
                &&& final(tools)@ == old(tools)@
                &&& ref_sum(jsons_of(old(tools)@)) > usize::MAX
            },
        },
{
    if count_tool_schema_refs(tools).is_none() {
        return None;
    }
    Some(strip_tool_schema_refs(tools))
}

proof fn lemma_fold_of_nothing(m: Map<Seq<char>, Json>, keys: Set<Seq<char>>)
    requires
        m.dom().finite(),
        keys.finite(),
        keys.subset_of(m.dom()),
        forall|k: Seq<char>| #[trigger] keys.contains(k) ==> ref_count(m[k]) == 0,
    ensures
        keys.fold(0nat, ref_adder(m)) == 0,
    decreases keys.len(),
{
    if keys.len() == 0 {
        assert(keys =~= Set::empty());
        vstd::set::fold::lemma_fold_empty(0nat, ref_adder(m));
    } else {
        let k = keys.choose();
        lemma_fold_of_nothing(m, keys.remove(k));
        lemma_adder_commutes(m);
        vstd::set::fold::lemma_fold_insert(keys.remove(k), 0nat, ref_adder(m), k);
        assert(keys.remove(k).insert(k) =~= keys);
    }
}

proof fn lemma_fold_bounds_members(m: Map<Seq<char>, Json>, k: Seq<char>)
    requires
        m.dom().finite(),
        m.contains_key(k),
    ensures
        ref_count(m[k]) <= m.dom().fold(0nat, ref_adder(m)),
{
    lemma_adder_commutes(m);
    vstd::set::fold::lemma_fold_insert(m.dom().remove(k), 0nat, ref_adder(m), k);
    assert(m.dom().remove(k).insert(k) =~= m.dom());
}

proof fn lemma_sum_of_nothing(items: Seq<Json>)
    requires
        forall|i: int| 0 <= i < items.len() ==> ref_count(#[trigger] items[i]) == 0,
    ensures
        ref_sum(items) == 0,
    decreases items.len(),
{
    if items.len() > 0 {
        assert(ref_count(items[0]) == 0);
        assert forall|i: int| 0 <= i < items.drop_first().len() implies ref_count(
            #[trigger] items.drop_first()[i],
        ) == 0 by {
            assert(items.drop_first()[i] == items[i + 1]);
        }
        lemma_sum_of_nothing(items.drop_first());
    }
}

proof fn lemma_sum_bounds_items(items: Seq<Json>, i: int)
    requires
        0 <= i < items.len(),
    ensures
        ref_count(items[i]) <= ref_sum(items),
    decreases items.len(),
{
    if i > 0 {
        assert(items.drop_first()[i - 1] == items[i]);
        lemma_sum_bounds_items(items.drop_first(), i - 1);
    }
}

proof fn lemma_folds_agree(
    a: Map<Seq<char>, Json>,
    b: Map<Seq<char>, Json>,
    keys: Set<Seq<char>>,
)
    requires
        a.dom().finite(),
        b.dom().finite(),
        keys.finite(),
        keys.subset_of(a.dom()),
        keys.subset_of(b.dom()),
        forall|k: Seq<char>| #[trigger] keys.contains(k) ==> a[k] == b[k],
    ensures
        keys.fold(0nat, ref_adder(a)) == keys.fold(0nat, ref_adder(b)),
    decreases keys.len(),
{
    lemma_adder_commutes(a);
    lemma_adder_commutes(b);
    if keys.len() == 0 {
        assert(keys =~= Set::empty());
        vstd::set::fold::lemma_fold_empty(0nat, ref_adder(a));
        vstd::set::fold::lemma_fold_empty(0nat, ref_adder(b));
    } else {
        let k = keys.choose();
        let rest = keys.remove(k);
        lemma_folds_agree(a, b, rest);
        vstd::set::fold::lemma_fold_insert(rest, 0nat, ref_adder(a), k);
        vstd::set::fold::lemma_fold_insert(rest, 0nat, ref_adder(b), k);
        assert(rest.insert(k) =~= keys);
        assert(a[k] == b[k]);
    }
}

/// A member without `$ref` nodes adds none to an object, and a member that is
/// taken out adds none either.
pub(crate) proof fn lemma_ref_count_of_changed(m: Map<Seq<char>, Json>, key: Seq<char>, v: Json)
    requires
        m.dom().finite(),
        key != "$ref"@,
        ref_count(v) == 0,
    ensures
        ref_count(Json::Object(m.insert(key, v))) <= ref_count(Json::Object(m)),
        ref_count(Json::Object(m.remove(key))) <= ref_count(Json::Object(m)),
{
    let with = m.insert(key, v);
    let without = m.remove(key);
    let others = m.dom().remove(key);
    assert(with.contains_key("$ref"@) == m.contains_key("$ref"@));
    assert(without.contains_key("$ref"@) == m.contains_key("$ref"@));
    if !m.contains_key("$ref"@) {
        lemma_adder_commutes(m);
        lemma_adder_commutes(with);
        lemma_folds_agree(m, with, others);
        lemma_folds_agree(m, without, others);
        assert(without.dom() =~= others);
        assert(with.dom() =~= others.insert(key));
        vstd::set::fold::lemma_fold_insert(others, 0nat, ref_adder(with), key);
        if m.contains_key(key) {
            assert(m.dom() =~= others.insert(key));
            vstd::set::fold::lemma_fold_insert(others, 0nat, ref_adder(m), key);
        } else {
            assert(m.dom() =~= others);
        }
    }
}

/// An object whose members have no `$ref` nodes, and that has no `$ref` member
/// itself, has none.
pub(crate) proof fn lemma_no_refs_in_members(m: Map<Seq<char>, Json>)
    requires
        m.dom().finite(),
        !m.contains_key("$ref"@),
        forall|k: Seq<char>| #[trigger] m.dom().contains(k) ==> ref_count(m[k]) == 0,
    ensures
        ref_count(Json::Object(m)) == 0,
{
    lemma_fold_of_nothing(m, m.dom());
}

/// A new member adds its own number.
pub(crate) proof fn lemma_ref_count_of_new_member(m: Map<Seq<char>, Json>, key: Seq<char>, v: Json)
    requires
        m.dom().finite(),
        key != "$ref"@,
        !m.contains_key("$ref"@),
        !m.contains_key(key),
    ensures
        ref_count(Json::Object(m.insert(key, v))) == ref_count(Json::Object(m)) + ref_count(v),
{
    let with = m.insert(key, v);
    assert(with.dom() =~= m.dom().insert(key));
    lemma_adder_commutes(with);
    vstd::set::fold::lemma_fold_insert(m.dom(), 0nat, ref_adder(with), key);
    lemma_folds_agree(m, with, m.dom());
}

/// The sum for two lists, one after the other.
pub(crate) proof fn lemma_ref_sum_of_both(a: Seq<Json>, b: Seq<Json>)
    ensures
        ref_sum(a + b) == ref_sum(a) + ref_sum(b),
    decreases a.len(),
{
    if a.len() == 0 {
        assert(a + b =~= b);
    } else {
        assert((a + b).drop_first() =~= a.drop_first() + b);
        lemma_ref_sum_of_both(a.drop_first(), b);
    }
}

/// No object anywhere in a stripped value has a `$ref` member, and none is
/// counted there.
pub proof fn stripping_leaves_no_refs(v: Json)
    requires
        v.finite(),
    ensures
        ref_free(stripped(v)),
        ref_count(stripped(v)) == 0,
    decreases v,
{
    match v {
        Json::Object(m) => {
            if m.contains_key("$ref"@) {
                let none = Map::<Seq<char>, Json>::empty();
                assert(none.dom() =~= Set::empty());
                lemma_fold_of_nothing(none, none.dom());
            } else {
                let members = stripped_members(m);
                assert(members.dom() =~= m.dom());
                assert forall|k: Seq<char>| #[trigger] members.dom().contains(k) implies ref_count(
                    members[k],
                ) == 0 by {
                    assert(m.contains_key(k));
                    assert(decreases_to!(m => m[k]));
                    stripping_leaves_no_refs(m[k]);
                }
                lemma_fold_of_nothing(members, members.dom());
                assert forall|k: Seq<char>| #[trigger] members.contains_key(k) implies ref_free(
                    members[k],
                ) by {
                    assert(m.contains_key(k));
                    assert(decreases_to!(m => m[k]));
                    stripping_leaves_no_refs(m[k]);
                }
            }
        },
        Json::Array(items) => {
            let rest = stripped_items(items);
            assert forall|i: int| 0 <= i < rest.len() implies ref_count(#[trigger] rest[i]) == 0
                && ref_free(rest[i]) by {
                assert(items[i].finite());
                assert(decreases_to!(items => items[i]));
                stripping_leaves_no_refs(items[i]);
            }
            lemma_sum_of_nothing(rest);
        },
        _ => {},
    }
}

/// A value without `$ref` nodes is left as it is.
pub proof fn stripping_without_refs_changes_nothing(v: Json)
    requires
        v.finite(),
        ref_count(v) == 0,
    ensures
        stripped(v) == v,
    decreases v,
{
    match v {
        Json::Object(m) => {
            let members = stripped_members(m);
            assert forall|k: Seq<char>| m.contains_key(k) implies members[k] == m[k] by {
                lemma_fold_bounds_members(m, k);
                assert(decreases_to!(m => m[k]));
                stripping_without_refs_changes_nothing(m[k]);
            }
            assert(members =~= m);
        },
        Json::Array(items) => {
            let rest = stripped_items(items);
            assert forall|i: int| 0 <= i < items.len() implies rest[i] == items[i] by {
                assert(items[i].finite());
                lemma_sum_bounds_items(items, i);
                assert(decreases_to!(items => items[i]));
                stripping_without_refs_changes_nothing(items[i]);
            }
            assert(rest =~= items);
        },
        _ => {},
    }
}

/// The model of a stripped value is finite.
pub proof fn stripping_keeps_finite(v: Json)
    requires
        v.finite(),
    ensures
        stripped(v).finite(),
    decreases v,
{
    match v {
        Json::Object(m) => {
            if !m.contains_key("$ref"@) {
                let members = stripped_members(m);
                assert(members.dom() =~= m.dom());
                assert forall|k: Seq<char>| #[trigger]
                    members.contains_key(k) implies members[k].finite() by {
                    assert(m.contains_key(k));
                    assert(decreases_to!(m => m[k]));
                    stripping_keeps_finite(m[k]);
                }
            }
        },
        Json::Array(items) => {
            let rest = stripped_items(items);
            assert forall|i: int| 0 <= i < rest.len() implies (#[trigger] rest[i]).finite() by {
                assert(items[i].finite());
                assert(decreases_to!(items => items[i]));
                stripping_keeps_finite(items[i]);
            }
        },
        _ => {},
    }
}

/// Stripping a second time changes nothing.
pub proof fn stripping_again_changes_nothing(v: Json)
    requires
        v.finite(),
    ensures
        stripped(stripped(v)) == stripped(v),
{
    stripping_leaves_no_refs(v);
    stripping_keeps_finite(v);
    stripping_without_refs_changes_nothing(stripped(v));
}

/// A value has no `$ref` node to count exactly when no object anywhere in it
/// has a `$ref` member.
pub proof fn none_counted_means_ref_free(v: Json)
    requires
        v.finite(),
    ensures
        ref_count(v) == 0 <==> ref_free(v),
    decreases v,
{
    if ref_count(v) == 0 {
        stripping_without_refs_changes_nothing(v);
        stripping_leaves_no_refs(v);
    }
    if ref_free(v) {
        match v {
            Json::Object(m) => {
                assert forall|k: Seq<char>| #[trigger] m.dom().contains(k) implies ref_count(m[k])
                    == 0 by {
                    assert(m.contains_key(k));
                    assert(decreases_to!(m => m[k]));
                    none_counted_means_ref_free(m[k]);
                }
                lemma_fold_of_nothing(m, m.dom());
            },
            Json::Array(items) => {
                assert forall|i: int| 0 <= i < items.len() implies ref_count(#[trigger] items[i])
                    == 0 by {
                    assert(ref_free(items[i]) && items[i].finite());
                    assert(decreases_to!(items => items[i]));
                    none_counted_means_ref_free(items[i]);
                }
                lemma_sum_of_nothing(items);
            },
            _ => {},
        }
    }
}

/// Stripping a list of tools keeps their number, leaves no object with a
/// `$ref` member anywhere in them, changes them exactly when there is something
/// to count, and finds nothing more to count or to change a second time.
pub proof fn stripping_tools_removes_the_refs(tools: Seq<Json>)
    requires
        all_finite(tools),
    ensures
        stripped_items(tools).len() == tools.len(),
        all_ref_free(stripped_items(tools)),
        ref_sum(tools) == 0 <==> stripped_items(tools) == tools,
        ref_sum(stripped_items(tools)) == 0,
        stripped_items(stripped_items(tools)) == stripped_items(tools),
{
    let rest = stripped_items(tools);
    assert forall|i: int| 0 <= i < rest.len() implies ref_free(#[trigger] rest[i]) && ref_count(
        rest[i],
    ) == 0 by {
        assert(tools[i].finite());
        stripping_leaves_no_refs(tools[i]);
    }
    lemma_sum_of_nothing(rest);
    if ref_sum(tools) == 0 {
        assert forall|i: int| 0 <= i < tools.len() implies rest[i] == tools[i] by {
            assert(tools[i].finite());
            lemma_sum_bounds_items(tools, i);
            stripping_without_refs_changes_nothing(tools[i]);
        }
        assert(rest =~= tools);
    }
    assert forall|i: int| 0 <= i < rest.len() implies stripped_items(rest)[i] == rest[i] by {
        assert(tools[i].finite());
        stripping_again_changes_nothing(tools[i]);
    }
    assert(stripped_items(rest) =~= rest);
}

} // verus!
