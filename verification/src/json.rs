//! JSON values: the executable type, its mathematical model, and the places
//! where a value is written as text or read from it.
use vstd::prelude::*;

use crate::text::{blank_text, same_text};

verus! {

/// A JSON number, carried through as `serde_json` holds it.
#[verifier::external_type_specification]
#[verifier::external_body]
pub struct ExNumber(serde_json::Number);

/// A JSON value of `serde_json`.
#[verifier::external_type_specification]
#[verifier::external_body]
pub struct ExOutsideValue(serde_json::Value);

/// The error with which `serde_json` refuses a text.
#[verifier::external_type_specification]
#[verifier::external_body]
pub struct ExOutsideError(serde_json::Error);

/// The model of a JSON value. An object is a finite map from keys to values.
pub enum Json {
    Null,
    Bool(bool),
    Number(serde_json::Number),
    String(Seq<char>),
    Array(Seq<Json>),
    Object(Map<Seq<char>, Json>),
}

impl Json {
    /// The member of an object under a key.
    pub open spec fn get(self, key: Seq<char>) -> Option<Json> {
        match self {
            Json::Object(m) => if m.contains_key(key) {
                Some(m[key])
            } else {
                None
            },
            _ => None,
        }
    }

    /// The text of a JSON string.
    pub open spec fn as_str(self) -> Option<Seq<char>> {
        match self {
            Json::String(s) => Some(s),
            _ => None,
        }
    }

    /// The text under a key of an object, where a string stands there.
    pub open spec fn str_at(self, key: Seq<char>) -> Option<Seq<char>> {
        match self.get(key) {
            Some(v) => v.as_str(),
            None => None,
        }
    }

    /// The text under a key of an object, or another text where none stands there.
    pub open spec fn str_or(self, key: Seq<char>, other: Seq<char>) -> Seq<char> {
        match self.str_at(key) {
            Some(s) => s,
            None => other,
        }
    }

    /// The items under a key of an object, where an array stands there.
    pub open spec fn array_at(self, key: Seq<char>) -> Option<Seq<Json>> {
        match self.get(key) {
            Some(Json::Array(items)) => Some(items),
            _ => None,
        }
    }

    /// The items under a key of an object; none where no array stands there.
    pub open spec fn items_at(self, key: Seq<char>) -> Seq<Json> {
        match self.array_at(key) {
            Some(items) => items,
            None => Seq::empty(),
        }
    }

    /// The members of an object.
    pub open spec fn as_object(self) -> Option<Map<Seq<char>, Json>> {
        match self {
            Json::Object(m) => Some(m),
            _ => None,
        }
    }

    /// Whether this value, and every value in it, has finitely many members.
    pub open spec fn finite(self) -> bool
        decreases self,
    {
        match self {
            Json::Object(m) => {
                &&& m.dom().finite()
                &&& forall|k: Seq<char>| #[trigger]
                    m.contains_key(k) ==> (m.dom().finite() && m.contains_key(k) && m[k].finite())
            },
            Json::Array(items) => forall|i: int|
                0 <= i < items.len() ==> (0 <= i < items.len() && (#[trigger] items[i]).finite()),
            _ => true,
        }
    }

    /// Whether the string `text` stands under a key of an object.
    pub open spec fn has_str(self, key: Seq<char>, text: Seq<char>) -> bool {
        self.str_at(key) == Some(text)
    }
}

/// A JSON value.
#[derive(Debug)]
pub enum JsonValue {
    Null,
    Bool(bool),
    Number(serde_json::Number),
    String(String),
    Array(Vec<JsonValue>),
    Object(JsonMap),
}

/// The members of a JSON object; no key occurs twice.
#[derive(Debug)]
pub struct JsonMap {
    entries: Vec<(String, JsonValue)>,
}

/// The model of a JSON value.
pub open spec fn json_of(v: JsonValue) -> Json
    decreases v,
{
    match v {
        JsonValue::Null => Json::Null,
        JsonValue::Bool(b) => Json::Bool(b),
        JsonValue::Number(n) => Json::Number(n),
        JsonValue::String(s) => Json::String(s@),
        JsonValue::Array(items) => Json::Array(jsons_of(items@)),
        JsonValue::Object(m) => Json::Object(m.json()),
    }
}

/// The models of a list of JSON values.
pub open spec fn jsons_of(items: Seq<JsonValue>) -> Seq<Json>
    decreases items,
{
    Seq::new(
        items.len(),
        |i: int|
            if 0 <= i < items.len() {
                json_of(items[i])
            } else {
                Json::Null
            },
    )
}

/// The model of a list of members: of two with one key, the later counts.
pub open spec fn members_of(entries: Seq<(String, JsonValue)>) -> Map<Seq<char>, Json>
    decreases entries,
{
    if entries.len() == 0 {
        Map::empty()
    } else {
        members_of(entries.drop_last()).insert(entries.last().0@, json_of(entries.last().1))
    }
}

/// Whether no two members have one key.
pub open spec fn distinct_keys(entries: Seq<(String, JsonValue)>) -> bool {
    forall|i: int, j: int|
        0 <= i < j < entries.len() ==> (#[trigger] entries[i]).0@ != (#[trigger] entries[j]).0@
}

impl View for JsonValue {
    type V = Json;

    open spec fn view(&self) -> Json {
        json_of(*self)
    }
}

impl View for JsonMap {
    type V = Map<Seq<char>, Json>;

    open spec fn view(&self) -> Map<Seq<char>, Json> {
        self.json()
    }
}

/// Whether every value of a list is finite.
pub open spec fn all_finite(items: Seq<Json>) -> bool {
    forall|i: int| 0 <= i < items.len() ==> (#[trigger] items[i]).finite()
}

/// The models of executable values are finite.
pub proof fn lists_are_finite(items: Seq<JsonValue>)
    ensures
        all_finite(jsons_of(items)),
{
    assert forall|i: int| 0 <= i < jsons_of(items).len() implies (
    #[trigger] jsons_of(items)[i]).finite() by {
        values_are_finite(items[i]);
    }
}

/// The model of an executable value is finite.
pub proof fn values_are_finite(v: JsonValue)
    ensures
        v@.finite(),
    decreases v,
{
    match v {
        JsonValue::Array(items) => {
            let models = jsons_of(items@);
            assert forall|i: int| 0 <= i < models.len() implies (#[trigger] models[i]).finite() by {
                assert(decreases_to!(v => v->Array_0));
                assert(decreases_to!(items@ => items@[i]));
                values_are_finite(items@[i]);
                assert(models[i] == items@[i]@);
            }
            assert(v@ == Json::Array(models));
        },
        JsonValue::Object(m) => {
            members_are_finite(m.entries@);
        },
        _ => {},
    }
}

proof fn members_are_finite(entries: Seq<(String, JsonValue)>)
    ensures
        members_of(entries).dom().finite(),
        forall|k: Seq<char>| #[trigger]
            members_of(entries).contains_key(k) ==> members_of(entries)[k].finite(),
    decreases entries,
{
    if entries.len() > 0 {
        members_are_finite(entries.drop_last());
        assert(decreases_to!(entries => entries.last()));
        values_are_finite(entries.last().1);
    }
}

proof fn lemma_members(entries: Seq<(String, JsonValue)>)
    requires
        distinct_keys(entries),
    ensures
        members_of(entries).dom().finite(),
        members_of(entries).dom().len() == entries.len(),
        forall|k: Seq<char>| #[trigger]
            members_of(entries).contains_key(k) ==> exists|i: int|
                0 <= i < entries.len() && (#[trigger] entries[i]).0@ == k,
        forall|i: int|
            0 <= i < entries.len() ==> {
                &&& members_of(entries).contains_key((#[trigger] entries[i]).0@)
                &&& members_of(entries)[entries[i].0@] == json_of(entries[i].1)
            },
    decreases entries.len(),
{
    if entries.len() > 0 {
        let rest = entries.drop_last();
        assert forall|i: int, j: int| 0 <= i < j < rest.len() implies (#[trigger] rest[i]).0@ != (
        #[trigger] rest[j]).0@ by {
            assert(rest[i] == entries[i] && rest[j] == entries[j]);
        }
        lemma_members(rest);
        let last = entries.last();
        assert(!members_of(rest).contains_key(last.0@)) by {
            if members_of(rest).contains_key(last.0@) {
                let i = choose|i: int| 0 <= i < rest.len() && (#[trigger] rest[i]).0@ == last.0@;
                assert(rest[i] == entries[i]);
            }
        }
        assert forall|k: Seq<char>| #[trigger]
            members_of(entries).contains_key(k) implies exists|i: int|
            0 <= i < entries.len() && (#[trigger] entries[i]).0@ == k by {
            if k == last.0@ {
                assert(entries[entries.len() - 1].0@ == k);
            } else {
                let i = choose|i: int| 0 <= i < rest.len() && (#[trigger] rest[i]).0@ == k;
                assert(entries[i] == rest[i]);
            }
        }
        assert forall|i: int| 0 <= i < entries.len() implies {
            &&& members_of(entries).contains_key((#[trigger] entries[i]).0@)
            &&& members_of(entries)[entries[i].0@] == json_of(entries[i].1)
        } by {
            if i < entries.len() - 1 {
                assert(rest[i] == entries[i]);
            }
        }
    }
}

proof fn lemma_members_are(entries: Seq<(String, JsonValue)>, m: Map<Seq<char>, Json>)
    requires
        distinct_keys(entries),
        forall|k: Seq<char>| #[trigger]
            m.contains_key(k) ==> exists|i: int|
                0 <= i < entries.len() && (#[trigger] entries[i]).0@ == k,
        forall|i: int|
            0 <= i < entries.len() ==> m.contains_key((#[trigger] entries[i]).0@)
                && m[entries[i].0@] == json_of(entries[i].1),
    ensures
        members_of(entries) == m,
{
    lemma_members(entries);
    assert forall|k: Seq<char>| members_of(entries).contains_key(k) == m.contains_key(k) && (
    m.contains_key(k) ==> members_of(entries)[k] == m[k]) by {
        if m.contains_key(k) {
            let i = choose|i: int| 0 <= i < entries.len() && (#[trigger] entries[i]).0@ == k;
            assert(entries[i].0@ == k);
        }
        if members_of(entries).contains_key(k) {
            let i = choose|i: int| 0 <= i < entries.len() && (#[trigger] entries[i]).0@ == k;
            assert(entries[i].0@ == k);
        }
    }
    assert(members_of(entries) =~= m);
}

proof fn lemma_member_replaced(entries: Seq<(String, JsonValue)>, i: int, e: (String, JsonValue))
    requires
        distinct_keys(entries),
        0 <= i < entries.len(),
        entries[i].0@ == e.0@,
    ensures
        distinct_keys(entries.update(i, e)),
        members_of(entries.update(i, e)) == members_of(entries).insert(e.0@, json_of(e.1)),
{
    lemma_members(entries);
    let after = entries.update(i, e);
    assert forall|a: int, b: int| 0 <= a < b < after.len() implies (#[trigger] after[a]).0@ != (
    #[trigger] after[b]).0@ by {
        assert(entries[a].0@ != entries[b].0@);
    }
    let m = members_of(entries).insert(e.0@, json_of(e.1));
    assert forall|k: Seq<char>| #[trigger] m.contains_key(k) implies exists|j: int|
        0 <= j < after.len() && (#[trigger] after[j]).0@ == k by {
        if k == e.0@ {
            assert(after[i].0@ == k);
        } else {
            let j = choose|j: int| 0 <= j < entries.len() && (#[trigger] entries[j]).0@ == k;
            assert(after[j].0@ == k);
        }
    }
    assert forall|j: int| 0 <= j < after.len() implies m.contains_key((#[trigger] after[j]).0@)
        && m[after[j].0@] == json_of(after[j].1) by {
        if j != i {
            assert(entries[j] == after[j]);
            assert(entries[j].0@ != entries[i].0@);
        }
    }
    lemma_members_are(after, m);
}

proof fn lemma_member_removed(entries: Seq<(String, JsonValue)>, i: int)
    requires
        distinct_keys(entries),
        0 <= i < entries.len(),
    ensures
        distinct_keys(entries.remove(i)),
        members_of(entries.remove(i)) == members_of(entries).remove(entries[i].0@),
{
    lemma_members(entries);
    let after = entries.remove(i);
    assert forall|a: int, b: int| 0 <= a < b < after.len() implies (#[trigger] after[a]).0@ != (
    #[trigger] after[b]).0@ by {
        let c = if a < i { a } else { a + 1 };
        let d = if b < i { b } else { b + 1 };
        assert(entries[c].0@ != entries[d].0@);
    }
    let m = members_of(entries).remove(entries[i].0@);
    assert forall|k: Seq<char>| #[trigger] m.contains_key(k) implies exists|j: int|
        0 <= j < after.len() && (#[trigger] after[j]).0@ == k by {
        let j = choose|j: int| 0 <= j < entries.len() && (#[trigger] entries[j]).0@ == k;
        assert(j != i);
        let l = if j < i { j } else { j - 1 };
        assert(after[l] == entries[j]);
    }
    assert forall|j: int| 0 <= j < after.len() implies m.contains_key((#[trigger] after[j]).0@)
        && m[after[j].0@] == json_of(after[j].1) by {
        let l = if j < i { j } else { j + 1 };
        assert(entries[l] == after[j]);
        assert(entries[l].0@ != entries[i].0@);
    }
    lemma_members_are(after, m);
}

impl JsonMap {
    /// The model of the members of an object.
    pub closed spec fn json(self) -> Map<Seq<char>, Json>
        decreases self,
    {
        members_of(self.entries@)
    }

    #[verifier::type_invariant]
    spec fn well_formed(self) -> bool {
        distinct_keys(self.entries@)
    }

    /// No members.
    pub fn new() -> (r: JsonMap)
        ensures
            r@ == Map::<Seq<char>, Json>::empty(),
    {
        JsonMap { entries: Vec::new() }
    }

    /// The number of members.
    pub fn len(&self) -> (r: usize)
        ensures
            self@.dom().finite(),
            r == self@.dom().len(),
    {
        proof {
            use_type_invariant(self);
            lemma_members(self.entries@);
        }
        self.entries.len()
    }

    fn position(&self, key: &str) -> (r: Option<usize>)
        ensures
            match r {
                Some(i) => {
                    &&& i < self.entries@.len()
                    &&& self.entries@[i as int].0@ == key@
                    &&& self@.contains_key(key@)
                    &&& self@[key@] == json_of(self.entries@[i as int].1)
                },
                None => {
                    &&& !self@.contains_key(key@)
                    &&& forall|j: int|
                        0 <= j < self.entries@.len() ==> (#[trigger] self.entries@[j]).0@ != key@
                },
            },
    {
        proof {
            use_type_invariant(self);
            lemma_members(self.entries@);
        }
        let mut i: usize = 0;
        while i < self.entries.len()
            invariant
                i <= self.entries@.len(),
                forall|j: int| 0 <= j < i ==> (#[trigger] self.entries@[j]).0@ != key@,
            decreases self.entries.len() - i,
        {
            if same_text(self.entries[i].0.as_str(), key) {
                proof {
                    use_type_invariant(self);
                    lemma_members(self.entries@);
                }
                return Some(i);
            }
            i = i + 1;
        }
        None
    }

    /// The member under a key.
    pub fn get(&self, key: &str) -> (r: Option<&JsonValue>)
        ensures
            match r {
                Some(v) => self@.contains_key(key@) && self@[key@] == v@,
                None => !self@.contains_key(key@),
            },
    {
        match self.position(key) {
            Some(i) => Some(&self.entries[i].1),
            None => None,
        }
    }

    /// Whether there is a member under a key.
    pub fn contains_key(&self, key: &str) -> (r: bool)
        ensures
            r == self@.contains_key(key@),
    {
        self.position(key).is_some()
    }

    /// Puts a value under a key, in place of the one that stood there.
    pub fn insert(&mut self, key: String, value: JsonValue)
        ensures
            final(self)@ == old(self)@.insert(key@, value@),
    {
        let found = self.position(key.as_str());
        proof {
            use_type_invariant(&*self);
            lemma_members(self.entries@);
        }
        let mut entries: Vec<(String, JsonValue)> = Vec::new();
        std::mem::swap(&mut entries, &mut self.entries);
        let ghost before = entries@;
        match found {
            Some(i) => {
                proof {
                    lemma_member_replaced(before, i as int, (key, value));
                }
                entries.set(i, (key, value));
            },
            None => {
                entries.push((key, value));
                assert(entries@.drop_last() =~= before);
            },
        }
        self.entries = entries;
    }

    /// Takes the member under a key out.
    pub fn remove(&mut self, key: &str) -> (r: Option<JsonValue>)
        ensures
            final(self)@ == old(self)@.remove(key@),
            match r {
                Some(v) => old(self)@.contains_key(key@) && old(self)@[key@] == v@,
                None => !old(self)@.contains_key(key@),
            },
    {
        let found = self.position(key);
        proof {
            use_type_invariant(&*self);
            lemma_members(self.entries@);
        }
        match found {
            Some(i) => {
                let mut entries: Vec<(String, JsonValue)> = Vec::new();
                std::mem::swap(&mut entries, &mut self.entries);
                proof {
                    lemma_member_removed(entries@, i as int);
                }
                let (_, value) = entries.remove(i);
                self.entries = entries;
                Some(value)
            },
            None => {
                assert(old(self)@.remove(key@) =~= old(self)@);
                None
            },
        }
    }

    /// The keys of the members, each once, in the order in which they are held.
    pub fn keys(&self) -> (r: Vec<String>)
        ensures
            crate::text::texts(r@).no_duplicates(),
            crate::text::texts(r@).to_set() == self@.dom(),
    {
        let mut out: Vec<String> = Vec::new();
        let mut i: usize = 0;
        while i < self.entries.len()
            invariant
                i <= self.entries@.len(),
                out@.len() == i,
                forall|j: int| 0 <= j < i ==> (#[trigger] out@[j])@ == self.entries@[j].0@,
            decreases self.entries.len() - i,
        {
            out.push(self.entries[i].0.clone());
            i = i + 1;
        }
        proof {
            use_type_invariant(self);
            lemma_members(self.entries@);
            let ks = crate::text::texts(out@);
            assert forall|a: int, b: int| 0 <= a < ks.len() && 0 <= b < ks.len() && a != b implies
                ks[a] != ks[b] by {
                assert(ks[a] == self.entries@[a].0@);
                assert(ks[b] == self.entries@[b].0@);
            }
            assert forall|k: Seq<char>| ks.to_set().contains(k) == self@.dom().contains(k) by {
                if ks.contains(k) {
                    let a = choose|a: int| 0 <= a < ks.len() && ks[a] == k;
                    assert(ks[a] == self.entries@[a].0@);
                }
                if self@.contains_key(k) {
                    let a = choose|a: int|
                        0 <= a < self.entries@.len() && (#[trigger] self.entries@[a]).0@ == k;
                    assert(ks[a] == k);
                }
            }
            assert(ks.to_set() =~= self@.dom());
        }
        out
    }
}

impl Clone for JsonMap {
    fn clone(&self) -> (r: JsonMap)
        ensures
            r@ == self@,
        decreases self,
    {
        proof {
            use_type_invariant(self);
        }
        let mut entries: Vec<(String, JsonValue)> = Vec::new();
        let mut i: usize = 0;
        assert(self.entries@.take(0) =~= Seq::empty());
        while i < self.entries.len()
            invariant
                i <= self.entries@.len(),
                entries@.len() == i,
                distinct_keys(self.entries@),
                forall|j: int| 0 <= j < i ==> (#[trigger] entries@[j]).0@ == self.entries@[j].0@,
                members_of(entries@) == members_of(self.entries@.take(i as int)),
            decreases self.entries.len() - i,
        {
            let key = self.entries[i].0.clone();
            assert(decreases_to!(self => self.entries@[i as int].1));
            let value = self.entries[i].1.clone();
            let ghost before = entries@;
            entries.push((key, value));
            assert(entries@.drop_last() =~= before);
            assert(self.entries@.take(i + 1).drop_last() =~= self.entries@.take(i as int));
            i = i + 1;
        }
        assert(self.entries@.take(i as int) =~= self.entries@);
        assert forall|a: int, b: int| 0 <= a < b < entries@.len() implies (
        #[trigger] entries@[a]).0@ != (#[trigger] entries@[b]).0@ by {
            assert(self.entries@[a].0@ != self.entries@[b].0@);
        }
        JsonMap { entries }
    }
}

impl Clone for JsonValue {
    fn clone(&self) -> (r: JsonValue)
        ensures
            r@ == self@,
        decreases self,
    {
        match self {
            JsonValue::Null => JsonValue::Null,
            JsonValue::Bool(b) => JsonValue::Bool(*b),
            JsonValue::Number(n) => JsonValue::Number(n.clone()),
            JsonValue::String(s) => JsonValue::String(s.clone()),
            JsonValue::Array(items) => {
                let mut out: Vec<JsonValue> = Vec::new();
                let mut i: usize = 0;
                while i < items.len()
                    invariant
                        *self == JsonValue::Array(*items),
                        i <= items@.len(),
                        out@.len() == i,
                        forall|j: int| 0 <= j < i ==> (#[trigger] out@[j])@ == items@[j]@,
                    decreases items.len() - i,
                {
                    assert(decreases_to!(self => self->Array_0));
                    assert(decreases_to!(items@ => items@[i as int]));
                    out.push(items[i].clone());
                    i = i + 1;
                }
                assert(jsons_of(out@) =~= jsons_of(items@));
                JsonValue::Array(out)
            },
            JsonValue::Object(m) => JsonValue::Object(m.clone()),
        }
    }
}

/// `Clone` of a `serde_json` number: the copy is the same number.
pub assume_specification[ <serde_json::Number as Clone>::clone ](n: &serde_json::Number) -> (r:
    serde_json::Number)
    ensures
        r == *n,
;

impl JsonValue {
    /// A JSON string.
    pub fn text(s: &str) -> (r: JsonValue)
        ensures
            r@ == Json::String(s@),
    {
        JsonValue::String(s.to_owned())
    }

    /// The member of an object under a key.
    pub fn get(&self, key: &str) -> (r: Option<&JsonValue>)
        ensures
            match r {
                Some(v) => self@.get(key@) == Some(v@),
                None => self@.get(key@) is None,
            },
    {
        match self {
            JsonValue::Object(m) => m.get(key),
            _ => None,
        }
    }

    /// The text of a JSON string.
    pub fn as_str(&self) -> (r: Option<&str>)
        ensures
            match r {
                Some(s) => self@.as_str() == Some(s@),
                None => self@.as_str() is None,
            },
    {
        match self {
            JsonValue::String(s) => Some(s.as_str()),
            _ => None,
        }
    }

    /// The text under a key of an object, where a string stands there.
    pub fn get_str(&self, key: &str) -> (r: Option<&str>)
        ensures
            match r {
                Some(s) => self@.str_at(key@) == Some(s@),
                None => self@.str_at(key@) is None,
            },
    {
        match self.get(key) {
            Some(v) => v.as_str(),
            None => None,
        }
    }

    /// The text under a key of an object, or another text where none stands there.
    pub fn str_or<'a>(&'a self, key: &str, other: &'a str) -> (r: &'a str)
        ensures
            r@ == self@.str_or(key@, other@),
    {
        match self.get_str(key) {
            Some(s) => s,
            None => other,
        }
    }

    /// Whether the string `text` stands under a key of an object.
    pub fn has_str(&self, key: &str, text: &str) -> (r: bool)
        ensures
            r == self@.has_str(key@, text@),
    {
        match self.get_str(key) {
            Some(s) => same_text(s, text),
            None => false,
        }
    }

    /// The items under a key of an object, where an array stands there.
    pub fn get_array(&self, key: &str) -> (r: Option<&Vec<JsonValue>>)
        ensures
            match r {
                Some(items) => self@.array_at(key@) == Some(jsons_of(items@)),
                None => self@.array_at(key@) is None,
            },
    {
        match self.get(key) {
            Some(JsonValue::Array(items)) => Some(items),
            _ => None,
        }
    }

    /// The members of an object.
    pub fn as_object(&self) -> (r: Option<&JsonMap>)
        ensures
            match r {
                Some(m) => self@ == Json::Object(m@),
                None => self@.as_object() is None,
            },
    {
        match self {
            JsonValue::Object(m) => Some(m),
            _ => None,
        }
    }

    /// The compact JSON text of a value.
    pub fn to_text(&self) -> (r: String)
        ensures
            r@ == json_text(self@),
            !blank_text(r@),
            flat_strings(self@) ==> parsed_json(r@) == Some(self@),
    {
        outside_text(&to_outside(self))
    }

    /// The value that a JSON text stands for; none where the text is no JSON.
    pub fn parse(text: &str) -> (r: Option<JsonValue>)
        ensures
            match r {
                Some(v) => parsed_json(text@) == Some(v@),
                None => parsed_json(text@) is None,
            },
    {
        match outside_parse(text) {
            Ok(v) => Some(from_outside(v)),
            Err(_) => None,
        }
    }

    /// The value that a value of `serde_json` holds.
    pub fn from_json(value: serde_json::Value) -> (r: JsonValue)
        ensures
            r@ == outside_json(value),
    {
        from_outside(value)
    }

    /// A value of `serde_json` that holds this value.
    pub fn to_json(&self) -> (r: serde_json::Value)
        ensures
            outside_json(r) == self@,
    {
        to_outside(self)
    }
}

/// Whether a value is an object whose members are all strings.
pub open spec fn flat_strings(v: Json) -> bool {
    v matches Json::Object(m) && forall|k: Seq<char>| #[trigger]
        m.contains_key(k) ==> m[k] is String
}

/// The content of a `serde_json` value.
pub uninterp spec fn outside_json(v: serde_json::Value) -> Json;

/// The compact text that `serde_json` writes for a value.
pub uninterp spec fn json_text(v: Json) -> Seq<char>;

/// What `serde_json` reads from a text; none where it refuses the text.
pub uninterp spec fn parsed_json(text: Seq<char>) -> Option<Json>;

/// Builds the `serde_json::Value` with the same content: a variant for each
/// variant, an item for each item, a member for each member.
#[verifier::external_body]
fn to_outside(v: &JsonValue) -> (r: serde_json::Value)
    ensures
        outside_json(r) == v@,
{
    match v {
        JsonValue::Null => serde_json::Value::Null,
        JsonValue::Bool(b) => serde_json::Value::Bool(*b),
        JsonValue::Number(n) => serde_json::Value::Number(n.clone()),
        JsonValue::String(s) => serde_json::Value::String(s.clone()),
        JsonValue::Array(items) => serde_json::Value::Array(items.iter().map(to_outside).collect()),
        JsonValue::Object(m) => serde_json::Value::Object(
            m.entries.iter().map(|e| (e.0.clone(), to_outside(&e.1))).collect(),
        ),
    }
}

/// Takes the content out of a `serde_json::Value`: a variant for each variant,
/// an item for each item, a member for each member. A `serde_json::Map` holds
/// no key twice.
#[verifier::external_body]
fn from_outside(v: serde_json::Value) -> (r: JsonValue)
    ensures
        r@ == outside_json(v),
{
    match v {
        serde_json::Value::Null => JsonValue::Null,
        serde_json::Value::Bool(b) => JsonValue::Bool(b),
        serde_json::Value::Number(n) => JsonValue::Number(n),
        serde_json::Value::String(s) => JsonValue::String(s),
        serde_json::Value::Array(items) => JsonValue::Array(
            items.into_iter().map(from_outside).collect(),
        ),
        serde_json::Value::Object(m) => JsonValue::Object(
            JsonMap { entries: m.into_iter().map(|e| (e.0, from_outside(e.1))).collect() },
        ),
    }
}

/// `Display` of `serde_json::Value` without the alternate flag: the compact
/// text of the value. It is a function of the content alone, since a
/// `serde_json::Map` hands out its members in the order of their keys. It is
/// never blank: every value starts with a letter, a digit or a sign, a quote or
/// a bracket. An object whose members are all strings is read back from its
/// text as it was: strings are escaped when they are written, and
/// `serde_json::from_str` undoes the escapes.
#[verifier::external_body]
fn outside_text(v: &serde_json::Value) -> (r: String)
    ensures
        r@ == json_text(outside_json(*v)),
        !blank_text(r@),
        flat_strings(outside_json(*v)) ==> parsed_json(r@) == Some(outside_json(*v)),
{
    v.to_string()
}

/// `serde_json::from_str`: what it reads, or that it refuses, is a function of
/// the text alone. What the error says is left unsaid.
#[verifier::external_body]
fn outside_parse(text: &str) -> (r: Result<serde_json::Value, serde_json::Error>)
    ensures
        match r {
            Ok(v) => parsed_json(text@) == Some(outside_json(v)),
            Err(_) => parsed_json(text@) is None,
        },
{
    serde_json::from_str(text)
}

} // verus!
