//! JSON values and their text form.
//!
//! [`JsonValue`] holds a document as plain data. Reading and writing JSON text
//! is done by `serde_json`; its values are unpacked into and packed from
//! [`JsonValue`] one level at a time.

use vstd::prelude::*;

use crate::order;
use crate::order::insert_ascending;
use crate::text;
use crate::text::{contains_text, str_equal};

verus! {

/// `serde_json::Number`, read only through [`number_integer`].
#[verifier::external_type_specification]
#[verifier::external_body]
pub struct ExNumber(serde_json::Number);

/// `serde_json::Value`, read only through [`value_content`].
#[verifier::external_type_specification]
#[verifier::external_body]
pub struct ExValue(serde_json::Value);

/// The integer that a `serde_json` number holds. A floating-point number holds
/// none.
pub uninterp spec fn number_integer(number: serde_json::Number) -> Option<int>;

/// The content of a `serde_json` number: an integer counts as such.
pub open spec fn number_content(number: serde_json::Number) -> Json {
    match number_integer(number) {
        Some(integer) => if integer < 0 {
            Json::Negative(integer as i64)
        } else {
            Json::Unsigned(integer as u64)
        },
        None => Json::Float(number),
    }
}

/// The mathematical content of a JSON value.
#[verifier::ext_equal]
pub enum Json {
    Null,
    Bool(bool),
    Unsigned(u64),
    Negative(i64),
    Float(serde_json::Number),
    Str(Seq<char>),
    Array(Seq<Json>),
    Object(Map<Seq<char>, Json>),
}

/// A JSON value.
///
/// Integers from zero to `u64::MAX` and negative integers down to `i64::MIN`
/// are held as such when they are read; every other number is a `Float`. A
/// `Float` made of an integer counts as that integer.
#[derive(Debug, PartialEq)]
pub enum JsonValue {
    Null,
    Bool(bool),
    Unsigned(u64),
    Negative(i64),
    Float(serde_json::Number),
    String(String),
    Array(Vec<JsonValue>),
    Object(JsonObject),
}

/// The members of a JSON object, each under a name of its own.
#[derive(Debug, PartialEq)]
pub struct JsonObject {
    entries: Vec<(String, JsonValue)>,
}

/// The content of a JSON value.
pub closed spec fn json_of(value: JsonValue) -> Json
    decreases value,
{
    match value {
        JsonValue::Null => Json::Null,
        JsonValue::Bool(b) => Json::Bool(b),
        JsonValue::Unsigned(n) => Json::Unsigned(n),
        JsonValue::Negative(n) => if n < 0 {
            Json::Negative(n)
        } else {
            Json::Unsigned(n as u64)
        },
        JsonValue::Float(n) => number_content(n),
        JsonValue::String(s) => Json::Str(s@),
        JsonValue::Array(items) => Json::Array(
            Seq::new(
                items@.len(),
                |i: int|
                    if 0 <= i < items@.len() {
                        json_of(items@[i])
                    } else {
                        Json::Null
                    },
            ),
        ),
        JsonValue::Object(object) => Json::Object(entries_map(object.entries@)),
    }
}

/// The members of an object; a later entry replaces an earlier one.
spec fn entries_map(entries: Seq<(String, JsonValue)>) -> Map<Seq<char>, Json>
    decreases entries,
{
    if entries.len() == 0 {
        Map::empty()
    } else {
        entries_map(entries.drop_last()).insert(entries.last().0@, json_of(entries.last().1))
    }
}

impl View for JsonValue {
    type V = Json;

    open spec fn view(&self) -> Json {
        json_of(*self)
    }
}

impl View for JsonObject {
    type V = Map<Seq<char>, Json>;

    closed spec fn view(&self) -> Map<Seq<char>, Json> {
        entries_map(self.entries@)
    }
}

/// The contents of a sequence of values.
pub open spec fn contents(items: Seq<JsonValue>) -> Seq<Json> {
    items.map_values(|item: JsonValue| item@)
}

/// The content of a value in terms of what it is built from.
pub proof fn lemma_json_of(value: JsonValue)
    ensures
        value@ == (match value {
            JsonValue::Null => Json::Null,
            JsonValue::Bool(b) => Json::Bool(b),
            JsonValue::Unsigned(n) => Json::Unsigned(n),
            JsonValue::Negative(n) => if n < 0 {
                Json::Negative(n)
            } else {
                Json::Unsigned(n as u64)
            },
            JsonValue::Float(n) => number_content(n),
            JsonValue::String(s) => Json::Str(s@),
            JsonValue::Array(items) => Json::Array(contents(items@)),
            JsonValue::Object(object) => Json::Object(object@),
        }),
{
    if let JsonValue::Array(items) = value {
        assert(value@->Array_0 =~= contents(items@));
    }
}

spec fn distinct_names(entries: Seq<(String, JsonValue)>) -> bool {
    forall|i: int, j: int|
        0 <= i < j < entries.len() ==> (#[trigger] entries[i]).0@ != (#[trigger] entries[j]).0@
}

proof fn lemma_entries_map(entries: Seq<(String, JsonValue)>)
    requires
        distinct_names(entries),
    ensures
        forall|i: int|
            0 <= i < entries.len() ==> entries_map(entries).dom().contains(
                (#[trigger] entries[i]).0@,
            ) && entries_map(entries)[entries[i].0@] == json_of(entries[i].1),
        forall|name: Seq<char>| #[trigger]
            entries_map(entries).dom().contains(name) ==> exists|i: int|
                0 <= i < entries.len() && (#[trigger] entries[i]).0@ == name,
    decreases entries.len(),
{
    if entries.len() > 0 {
        let head = entries.drop_last();
        assert forall|i: int, j: int| 0 <= i < j < head.len() implies (#[trigger] head[i]).0@ != (
        #[trigger] head[j]).0@ by {
            assert(head[i] == entries[i]);
            assert(head[j] == entries[j]);
        }
        lemma_entries_map(head);
        assert forall|i: int| 0 <= i < entries.len() implies entries_map(entries).dom().contains(
            (#[trigger] entries[i]).0@,
        ) && entries_map(entries)[entries[i].0@] == json_of(entries[i].1) by {
            if i < head.len() {
                assert(head[i] == entries[i]);
                assert(entries[i].0@ != entries[entries.len() - 1].0@);
            }
        }
        assert forall|name: Seq<char>| #[trigger]
            entries_map(entries).dom().contains(name) implies exists|i: int|
            0 <= i < entries.len() && (#[trigger] entries[i]).0@ == name by {
            if name == entries.last().0@ {
                assert(entries[entries.len() - 1].0@ == name);
            } else {
                assert(entries_map(head).dom().contains(name));
                let i = choose|i: int| 0 <= i < head.len() && (#[trigger] head[i]).0@ == name;
                assert(entries[i].0@ == name);
            }
        }
    }
}

/// Removing one entry removes exactly its member.
proof fn lemma_entries_remove(entries: Seq<(String, JsonValue)>, index: int)
    requires
        distinct_names(entries),
        0 <= index < entries.len(),
    ensures
        distinct_names(entries.remove(index)),
        entries_map(entries.remove(index)) == entries_map(entries).remove(entries[index].0@),
{
    let rest = entries.remove(index);
    let name = entries[index].0@;
    assert forall|i: int, j: int| 0 <= i < j < rest.len() implies (#[trigger] rest[i]).0@ != (
    #[trigger] rest[j]).0@ by {
        let i2 = if i < index { i } else { i + 1 };
        let j2 = if j < index { j } else { j + 1 };
        assert(rest[i] == entries[i2]);
        assert(rest[j] == entries[j2]);
    }
    lemma_entries_map(entries);
    lemma_entries_map(rest);
    let before = entries_map(entries).remove(name);
    let after = entries_map(rest);
    assert forall|key: Seq<char>| #[trigger] after.dom().contains(key) implies before.dom().contains(
        key,
    ) && before[key] == after[key] by {
        let i = choose|i: int| 0 <= i < rest.len() && (#[trigger] rest[i]).0@ == key;
        let i2 = if i < index { i } else { i + 1 };
        assert(rest[i] == entries[i2]);
        assert(entries[i2].0@ != entries[index].0@);
    }
    assert forall|key: Seq<char>| #[trigger] before.dom().contains(key) implies after.dom().contains(
        key,
    ) by {
        assert(entries_map(entries).dom().contains(key));
        let i = choose|i: int| 0 <= i < entries.len() && (#[trigger] entries[i]).0@ == key;
        let i2 = if i < index { i } else { i - 1 };
        assert(rest[i2] == entries[i]);
        assert(rest[i2].0@ == key);
    }
    assert(after =~= before);
}

impl JsonObject {
    #[verifier::type_invariant]
    spec fn type_inv(&self) -> bool {
        distinct_names(self.entries@)
    }

    /// The member names in the order in which the entries are held.
    pub closed spec fn names(&self) -> Seq<Seq<char>> {
        self.entries@.map_values(|entry: (String, JsonValue)| entry.0@)
    }

    /// An object without members.
    pub fn new() -> (r: Self)
        ensures
            r@ == Map::<Seq<char>, Json>::empty(),
            r.names().len() == 0,
    {
        JsonObject { entries: Vec::new() }
    }

    /// The number of members.
    pub fn len(&self) -> (r: usize)
        ensures
            r == self.names().len(),
    {
        self.entries.len()
    }

    /// The member names in ascending order.
    pub fn sorted_names(&self) -> (r: Vec<String>)
        ensures
            text::texts(r@) == order::ascending_list(self@.dom()),
            order::lists(text::texts(r@), self@.dom()),
    {
        proof {
            use_type_invariant(self);
            lemma_entries_map(self.entries@);
        }
        let mut names: Vec<String> = Vec::new();
        let mut index: usize = 0;
        while index < self.entries.len()
            invariant
                index <= self.entries.len(),
                order::ascending(text::texts(names@)),
                forall|name: Seq<char>| #[trigger]
                    text::texts(names@).contains(name) <==> exists|i: int|
                        0 <= i < index && (#[trigger] self.entries@[i]).0@ == name,
            decreases self.entries.len() - index,
        {
            let ghost before = text::texts(names@);
            let ghost added = self.entries@[index as int].0@;
            insert_ascending(&mut names, self.entries[index].0.clone());
            proof {
                order::lemma_insert_sorted_ascending(before, added);
                assert forall|name: Seq<char>| #[trigger] text::texts(names@).contains(name)
                    <==> exists|i: int|
                    0 <= i < index + 1 && (#[trigger] self.entries@[i]).0@ == name by {
                    if before.contains(name) {
                        let i = choose|i: int|
                            0 <= i < index && (#[trigger] self.entries@[i]).0@ == name;
                        assert(self.entries@[i].0@ == name);
                    }
                    if exists|i: int|
                        0 <= i < index + 1 && (#[trigger] self.entries@[i]).0@ == name {
                        let i = choose|i: int|
                            0 <= i < index + 1 && (#[trigger] self.entries@[i]).0@ == name;
                        if i < index {
                            assert(before.contains(name));
                        }
                    }
                }
            }
            index += 1;
        }
        proof {
            let list = text::texts(names@);
            assert forall|name: Seq<char>| #[trigger] list.contains(name) <==> self@.dom().contains(
                name,
            ) by {
                if list.contains(name) {
                    let i = choose|i: int|
                        0 <= i < self.entries@.len() && (#[trigger] self.entries@[i]).0@ == name;
                    assert(self@.dom().contains(self.entries@[i].0@));
                }
            }
            assert(order::lists(list, self@.dom()));
            order::ascending_lists_are_unique(
                list,
                order::ascending_list(self@.dom()),
                self@.dom(),
            );
        }
        names
    }

    fn position(&self, name: &str) -> (r: Option<usize>)
        ensures
            match r {
                Some(i) => i < self.entries@.len() && self.entries@[i as int].0@ == name@,
                None => forall|i: int|
                    0 <= i < self.entries@.len() ==> (#[trigger] self.entries@[i]).0@ != name@,
            },
    {
        let mut index: usize = 0;
        while index < self.entries.len()
            invariant
                index <= self.entries@.len(),
                forall|i: int| 0 <= i < index ==> (#[trigger] self.entries@[i]).0@ != name@,
            decreases self.entries@.len() - index,
        {
            if str_equal(self.entries[index].0.as_str(), name) {
                return Some(index);
            }
            index += 1;
        }
        None
    }

    /// The value of the member with the given name.
    pub fn get(&self, name: &str) -> (r: Option<&JsonValue>)
        ensures
            r is Some <==> self@.dom().contains(name@),
            r matches Some(value) ==> value@ == self@[name@],
    {
        proof {
            use_type_invariant(self);
            lemma_entries_map(self.entries@);
        }
        match self.position(name) {
            Some(index) => Some(&self.entries[index].1),
            None => None,
        }
    }

    /// Whether every member has one of the given names.
    pub fn has_only(&self, allowed: &[&str]) -> (r: bool)
        ensures
            r == (forall|name: Seq<char>| #[trigger]
                self@.dom().contains(name) ==> text::slices(allowed@).contains(name)),
    {
        proof {
            use_type_invariant(self);
            lemma_entries_map(self.entries@);
        }
        let mut index: usize = 0;
        while index < self.entries.len()
            invariant
                index <= self.entries.len(),
                forall|i: int|
                    0 <= i < self.entries@.len() ==> self@.dom().contains(
                        (#[trigger] self.entries@[i]).0@,
                    ),
                forall|i: int|
                    0 <= i < index ==> text::slices(allowed@).contains(
                        (#[trigger] self.entries@[i]).0@,
                    ),
            decreases self.entries.len() - index,
        {
            if !contains_text(allowed, self.entries[index].0.as_str()) {
                assert(self@.dom().contains(self.entries@[index as int].0@));
                return false;
            }
            index += 1;
        }
        true
    }

    /// The only member of an object with one member.
    pub fn single_member(&self) -> (r: Option<(&str, &JsonValue)>)
        ensures
            match r {
                Some((name, value)) => self@ == Map::<Seq<char>, Json>::empty().insert(
                    name@,
                    value@,
                ),
                None => forall|name: Seq<char>, value: Json|
                    self@ != #[trigger] Map::<Seq<char>, Json>::empty().insert(name, value),
            },
    {
        proof {
            use_type_invariant(self);
            lemma_entries_map(self.entries@);
        }
        if self.entries.len() == 1 {
            let entry = &self.entries[0];
            proof {
                assert(self.entries@.drop_last() =~= Seq::<(String, JsonValue)>::empty());
                reveal_with_fuel(entries_map, 2);
                assert(self@ =~= Map::<Seq<char>, Json>::empty().insert(entry.0@, entry.1@));
            }
            return Some((entry.0.as_str(), &entry.1));
        }
        proof {
            assert forall|name: Seq<char>, value: Json|
                self@ != #[trigger] Map::<Seq<char>, Json>::empty().insert(name, value) by {
                let single = Map::<Seq<char>, Json>::empty().insert(name, value);
                if self@ == single {
                    assert(single.dom().contains(name));
                    let i = choose|i: int|
                        0 <= i < self.entries@.len() && (#[trigger] self.entries@[i]).0@ == name;
                    let j: int = if i == 0 {
                        1
                    } else {
                        0
                    };
                    assert(self@.dom().contains(self.entries@[j].0@));
                    assert(single.dom().contains(self.entries@[j].0@));
                    let low = if i < j { i } else { j };
                    let high = if i < j { j } else { i };
                    assert(self.entries@[low].0@ != self.entries@[high].0@);
                }
            }
        }
        None
    }

    /// Removes the member with the given name and returns its value.
    pub fn remove(&mut self, name: &str) -> (r: Option<JsonValue>)
        ensures
            final(self)@ == old(self)@.remove(name@),
            r is Some <==> old(self)@.dom().contains(name@),
            r matches Some(value) ==> value@ == old(self)@[name@],
    {
        proof {
            use_type_invariant(&*self);
            lemma_entries_map(self.entries@);
        }
        match self.position(name) {
            Some(index) => {
                proof {
                    lemma_entries_remove(self.entries@, index as int);
                }
                let mut entries: Vec<(String, JsonValue)> = Vec::new();
                core::mem::swap(&mut entries, &mut self.entries);
                let entry = entries.remove(index);
                self.entries = entries;
                Some(entry.1)
            },
            None => {
                assert(self@.remove(name@) =~= self@);
                None
            },
        }
    }

    /// Sets the member with the given name.
    pub fn insert(&mut self, name: &str, value: JsonValue)
        ensures
            final(self)@ == old(self)@.insert(name@, value@),
    {
        let ghost before = self@;
        let _ = self.remove(name);
        proof {
            use_type_invariant(&*self);
            lemma_entries_map(self.entries@);
        }
        let mut entries: Vec<(String, JsonValue)> = Vec::new();
        core::mem::swap(&mut entries, &mut self.entries);
        let ghost kept = entries@;
        proof {
            if exists|i: int| 0 <= i < kept.len() && (#[trigger] kept[i]).0@ == name@ {
                assert(before.remove(name@).dom().contains(name@));
            }
        }
        entries.push((name.to_owned(), value));
        proof {
            assert(entries@.drop_last() =~= kept);
            assert(before.remove(name@).insert(name@, value@) =~= before.insert(name@, value@));
            assert forall|i: int, j: int| 0 <= i < j < entries@.len() implies (
            #[trigger] entries@[i]).0@ != (#[trigger] entries@[j]).0@ by {
                assert(entries@[i] == kept[i]);
                if j < kept.len() {
                    assert(entries@[j] == kept[j]);
                }
            }
        }
        self.entries = entries;
    }
}


/// What a `serde_json` value holds.
pub uninterp spec fn value_content(value: serde_json::Value) -> Json;

/// One level of a `serde_json` value.
pub enum JsonNode {
    Null,
    Bool(bool),
    Unsigned(u64),
    Negative(i64),
    Float(serde_json::Number),
    String(String),
    Array(Vec<serde_json::Value>),
    Object(Vec<(String, serde_json::Value)>),
}

/// The members of a list of named values; a later one replaces an earlier one.
pub open spec fn member_map(members: Seq<(Seq<char>, Json)>) -> Map<Seq<char>, Json>
    decreases members.len(),
{
    if members.len() == 0 {
        Map::empty()
    } else {
        member_map(members.drop_last()).insert(members.last().0, members.last().1)
    }
}

/// The names and contents of a list of `serde_json` members.
pub open spec fn member_contents(members: Seq<(String, serde_json::Value)>) -> Seq<
    (Seq<char>, Json),
> {
    members.map_values(
        |member: (String, serde_json::Value)| (member.0@, value_content(member.1)),
    )
}

/// The content of one level of a `serde_json` value.
pub open spec fn node_content(node: JsonNode) -> Json {
    match node {
        JsonNode::Null => Json::Null,
        JsonNode::Bool(b) => Json::Bool(b),
        JsonNode::Unsigned(n) => Json::Unsigned(n),
        JsonNode::Negative(n) => if n < 0 {
            Json::Negative(n)
        } else {
            Json::Unsigned(n as u64)
        },
        JsonNode::Float(n) => number_content(n),
        JsonNode::String(s) => Json::Str(s@),
        JsonNode::Array(items) => Json::Array(
            items@.map_values(|item: serde_json::Value| value_content(item)),
        ),
        JsonNode::Object(members) => Json::Object(member_map(member_contents(members@))),
    }
}

/// `serde_json::Value` taken apart by variant. A number is told apart by
/// `Number::as_u64` and `Number::as_i64`; where both give nothing, it holds no
/// integer. The members of an object are those of its map, each name once.
#[verifier::external_body]
fn unpack(value: serde_json::Value) -> (r: JsonNode)
    ensures
        node_content(r) == value_content(value),
        r matches JsonNode::Float(number) ==> number_integer(number) is None,
        r matches JsonNode::Object(members) ==> forall|i: int, j: int|
            0 <= i < j < members@.len() ==> (#[trigger] members@[i]).0@ != (
            #[trigger] members@[j]).0@,
{
    match value {
        serde_json::Value::Null => JsonNode::Null,
        serde_json::Value::Bool(b) => JsonNode::Bool(b),
        serde_json::Value::Number(n) => match (n.as_u64(), n.as_i64()) {
            (Some(unsigned), _) => JsonNode::Unsigned(unsigned),
            (None, Some(signed)) => JsonNode::Negative(signed),
            (None, None) => JsonNode::Float(n),
        },
        serde_json::Value::String(s) => JsonNode::String(s),
        serde_json::Value::Array(items) => JsonNode::Array(items),
        serde_json::Value::Object(map) => JsonNode::Object(map.into_iter().collect()),
    }
}

/// `serde_json::Value` put together by variant. A number keeps what it holds, be
/// it an integer or not. An object is collected into its map, where a later
/// member replaces an earlier one of the same name.
#[verifier::external_body]
fn pack(node: JsonNode) -> (r: serde_json::Value)
    ensures
        value_content(r) == node_content(node),
{
    match node {
        JsonNode::Null => serde_json::Value::Null,
        JsonNode::Bool(b) => serde_json::Value::Bool(b),
        JsonNode::Unsigned(n) => serde_json::Value::from(n),
        JsonNode::Negative(n) => serde_json::Value::from(n),
        JsonNode::Float(n) => serde_json::Value::Number(n),
        JsonNode::String(s) => serde_json::Value::String(s),
        JsonNode::Array(items) => serde_json::Value::Array(items),
        JsonNode::Object(members) => serde_json::Value::Object(members.into_iter().collect()),
    }
}

/// A name is a member if and only if it is listed, and then it has the listed
/// value.
pub proof fn lemma_member_map(members: Seq<(Seq<char>, Json)>)
    requires
        distinct_members(members),
    ensures
        forall|i: int|
            0 <= i < members.len() ==> member_map(members).dom().contains((#[trigger] members[i]).0)
                && member_map(members)[members[i].0] == members[i].1,
        forall|name: Seq<char>| #[trigger]
            member_map(members).dom().contains(name) ==> exists|i: int|
                0 <= i < members.len() && (#[trigger] members[i]).0 == name,
    decreases members.len(),
{
    if members.len() > 0 {
        let head = members.drop_last();
        assert forall|i: int, j: int| 0 <= i < j < head.len() implies (#[trigger] head[i]).0 != (
        #[trigger] head[j]).0 by {
            assert(head[i] == members[i] && head[j] == members[j]);
        }
        lemma_member_map(head);
        assert forall|i: int| 0 <= i < members.len() implies member_map(members).dom().contains(
            (#[trigger] members[i]).0,
        ) && member_map(members)[members[i].0] == members[i].1 by {
            if i < head.len() {
                assert(head[i] == members[i]);
                assert(members[i].0 != members[members.len() - 1].0);
            }
        }
        assert forall|name: Seq<char>| #[trigger]
            member_map(members).dom().contains(name) implies exists|i: int|
            0 <= i < members.len() && (#[trigger] members[i]).0 == name by {
            if name == members.last().0 {
                assert(members[members.len() - 1].0 == name);
            } else {
                assert(member_map(head).dom().contains(name));
                let i = choose|i: int| 0 <= i < head.len() && (#[trigger] head[i]).0 == name;
                assert(members[i].0 == name);
            }
        }
    }
}

/// Reads a `serde_json` value.
fn import(value: serde_json::Value) -> (r: JsonValue)
    ensures
        r@ == value_content(value),
    decreases value_content(value),
{
    let ghost content = value_content(value);
    let node = unpack(value);
    let r = match node {
        JsonNode::Null => JsonValue::Null,
        JsonNode::Bool(b) => JsonValue::Bool(b),
        JsonNode::Unsigned(n) => JsonValue::Unsigned(n),
        JsonNode::Negative(n) => JsonValue::Negative(n),
        JsonNode::Float(n) => JsonValue::Float(n),
        JsonNode::String(s) => JsonValue::String(s),
        JsonNode::Array(items) => {
            let ghost all = items@;
            let mut values: Vec<JsonValue> = Vec::new();
            for item in it: items
                invariant
                    it.seq() == all,
                    content == value_content(value),
                    content == Json::Array(
                        all.map_values(|item: serde_json::Value| value_content(item)),
                    ),
                    values@.len() == it.index(),
                    forall|i: int|
                        0 <= i < values@.len() ==> (#[trigger] values@[i])@ == value_content(all[i]),
            {
                proof {
                    let i = it.index();
                    assert(content->Array_0[i] == value_content(item));
                    assert(decreases_to!(content => content->Array_0[i]));
                }
                values.push(import(item));
            }
            let r = JsonValue::Array(values);
            proof {
                lemma_json_of(r);
                assert(contents(values@) =~= content->Array_0);
            }
            r
        },
        JsonNode::Object(members) => {
            let ghost all = members@;
            let ghost named = member_contents(all);
            let mut object = JsonObject::new();
            proof {
                assert forall|i: int, j: int| 0 <= i < j < named.len() implies (
                #[trigger] named[i]).0 != (#[trigger] named[j]).0 by {
                    assert(all[i].0@ != all[j].0@);
                }
                lemma_member_map(named);
                assert(named.take(0) =~= Seq::<(Seq<char>, Json)>::empty());
            }
            for member in it: members
                invariant
                    it.seq() == all,
                    content == value_content(value),
                    named == member_contents(all),
                    content == Json::Object(member_map(named)),
                    forall|i: int|
                        0 <= i < named.len() ==> member_map(named).dom().contains(
                            (#[trigger] named[i]).0,
                        ) && member_map(named)[named[i].0] == named[i].1,
                    object@ == member_map(named.take(it.index() as int)),
            {
                proof {
                    let i = it.index() as int;
                    assert(named[i] == (member.0@, value_content(member.1)));
                    assert(content->Object_0.dom().contains(member.0@));
                    assert(decreases_to!(content => content->Object_0[member.0@]));
                    assert(named.take(i + 1).drop_last() =~= named.take(i));
                }
                let (name, value) = member;
                object.insert(name.as_str(), import(value));
            }
            let r = JsonValue::Object(object);
            proof {
                assert(named.take(named.len() as int) =~= named);
                lemma_json_of(r);
            }
            r
        },
    };
    proof {
        lemma_json_of(r);
    }
    r
}


/// `serde_json::Number` is cloned by copying it.
pub assume_specification[ <serde_json::Number as Clone>::clone ](
    number: &serde_json::Number,
) -> (r: serde_json::Number)
    ensures
        r == *number,
;

/// The contents of entries that are packed in the same order.
proof fn lemma_packed_entries(
    entries: Seq<(String, JsonValue)>,
    members: Seq<(String, serde_json::Value)>,
)
    requires
        entries.len() == members.len(),
        forall|i: int|
            0 <= i < entries.len() ==> (#[trigger] members[i]).0@ == entries[i].0@ && value_content(
                members[i].1,
            ) == json_of(entries[i].1),
    ensures
        member_map(member_contents(members)) == entries_map(entries),
    decreases entries.len(),
{
    if entries.len() > 0 {
        let last = entries.len() - 1;
        assert(members[last].0@ == entries[last].0@);
        assert forall|i: int| 0 <= i < last implies (#[trigger] members.drop_last()[i]).0@
            == entries.drop_last()[i].0@ && value_content(members.drop_last()[i].1) == json_of(
            entries.drop_last()[i].1,
        ) by {
            assert(members[i].0@ == entries[i].0@);
        }
        lemma_packed_entries(entries.drop_last(), members.drop_last());
        assert(member_contents(members).drop_last() =~= member_contents(members.drop_last()));
    }
}

/// Builds a `serde_json` value.
fn export(value: &JsonValue) -> (r: serde_json::Value)
    ensures
        value_content(r) == value@,
    decreases value,
{
    proof {
        lemma_json_of(*value);
    }
    match value {
        JsonValue::Null => pack(JsonNode::Null),
        JsonValue::Bool(b) => pack(JsonNode::Bool(*b)),
        JsonValue::Unsigned(n) => pack(JsonNode::Unsigned(*n)),
        JsonValue::Negative(n) => pack(JsonNode::Negative(*n)),
        JsonValue::Float(n) => pack(JsonNode::Float(n.clone())),
        JsonValue::String(s) => pack(JsonNode::String(s.clone())),
        JsonValue::Array(items) => {
            let mut values: Vec<serde_json::Value> = Vec::new();
            let mut index: usize = 0;
            while index < items.len()
                invariant
                    *value == JsonValue::Array(*items),
                    index <= items.len(),
                    values@.len() == index,
                    forall|i: int|
                        0 <= i < index ==> value_content(#[trigger] values@[i]) == items@[i]@,
                decreases items.len() - index,
            {
                assert(decreases_to!(value => value->Array_0@[index as int]));
                values.push(export(&items[index]));
                index += 1;
            }
            assert(values@.map_values(|item: serde_json::Value| value_content(item)) =~= contents(
                items@,
            ));
            pack(JsonNode::Array(values))
        },
        JsonValue::Object(object) => {
            let mut members: Vec<(String, serde_json::Value)> = Vec::new();
            let mut index: usize = 0;
            while index < object.entries.len()
                invariant
                    *value == JsonValue::Object(*object),
                    index <= object.entries.len(),
                    members@.len() == index,
                    forall|i: int|
                        0 <= i < index ==> (#[trigger] members@[i]).0@ == object.entries@[i].0@
                            && value_content(members@[i].1) == object.entries@[i].1@,
                decreases object.entries.len() - index,
            {
                assert(decreases_to!(value => value->Object_0.entries@[index as int].1));
                let entry = &object.entries[index];
                members.push((entry.0.clone(), export(&entry.1)));
                index += 1;
            }
            proof {
                lemma_packed_entries(object.entries@, members@);
            }
            pack(JsonNode::Object(members))
        },
    }
}

/// Copies a value.
fn copy_value(value: &JsonValue) -> (r: JsonValue)
    ensures
        r@ == value@,
    decreases value,
{
    let r = match value {
        JsonValue::Null => JsonValue::Null,
        JsonValue::Bool(b) => JsonValue::Bool(*b),
        JsonValue::Unsigned(n) => JsonValue::Unsigned(*n),
        JsonValue::Negative(n) => JsonValue::Negative(*n),
        JsonValue::Float(n) => JsonValue::Float(n.clone()),
        JsonValue::String(s) => JsonValue::String(s.clone()),
        JsonValue::Array(items) => {
            let mut values: Vec<JsonValue> = Vec::new();
            let mut index: usize = 0;
            while index < items.len()
                invariant
                    *value == JsonValue::Array(*items),
                    index <= items.len(),
                    values@.len() == index,
                    forall|i: int| 0 <= i < index ==> (#[trigger] values@[i])@ == items@[i]@,
                decreases items.len() - index,
            {
                assert(decreases_to!(value => value->Array_0@[index as int]));
                values.push(copy_value(&items[index]));
                index += 1;
            }
            assert(contents(values@) =~= contents(items@));
            JsonValue::Array(values)
        },
        JsonValue::Object(object) => {
            assert(decreases_to!(value => *object));
            JsonValue::Object(copy_object(object))
        },
    };
    proof {
        lemma_json_of(r);
        lemma_json_of(*value);
    }
    r
}

/// Copies an object.
fn copy_object(object: &JsonObject) -> (r: JsonObject)
    ensures
        r@ == object@,
        r.names() == object.names(),
    decreases object,
{
    proof {
        use_type_invariant(object);
    }
    let mut entries: Vec<(String, JsonValue)> = Vec::new();
    let mut index: usize = 0;
    while index < object.entries.len()
        invariant
            index <= object.entries.len(),
            entries@.len() == index,
            forall|i: int|
                0 <= i < index ==> (#[trigger] entries@[i]).0@ == object.entries@[i].0@
                    && entries@[i].1@ == object.entries@[i].1@,
        decreases object.entries.len() - index,
    {
        assert(decreases_to!(object => object.entries@[index as int].1));
        let entry = &object.entries[index];
        entries.push((entry.0.clone(), copy_value(&entry.1)));
        index += 1;
    }
    proof {
        assert forall|i: int, j: int| 0 <= i < j < entries@.len() implies (
        #[trigger] entries@[i]).0@ != (#[trigger] entries@[j]).0@ by {
            assert(object.entries@[i].0@ != object.entries@[j].0@);
        }
        lemma_same_entries(entries@, object.entries@);
    }
    let r = JsonObject { entries };
    assert(r.names() =~= object.names());
    r
}

proof fn lemma_same_entries(left: Seq<(String, JsonValue)>, right: Seq<(String, JsonValue)>)
    requires
        left.len() == right.len(),
        forall|i: int|
            0 <= i < left.len() ==> (#[trigger] left[i]).0@ == right[i].0@ && json_of(left[i].1)
                == json_of(right[i].1),
    ensures
        entries_map(left) == entries_map(right),
    decreases left.len(),
{
    if left.len() > 0 {
        let last = left.len() - 1;
        assert(left[last].0@ == right[last].0@);
        assert forall|i: int| 0 <= i < last implies (#[trigger] left.drop_last()[i]).0@
            == right.drop_last()[i].0@ && json_of(left.drop_last()[i].1) == json_of(
            right.drop_last()[i].1,
        ) by {
            assert(left[i].0@ == right[i].0@);
        }
        lemma_same_entries(left.drop_last(), right.drop_last());
    }
}

impl Clone for JsonValue {
    fn clone(&self) -> (r: Self)
        ensures
            r@ == self@,
    {
        copy_value(self)
    }
}

impl Clone for JsonObject {
    fn clone(&self) -> (r: Self)
        ensures
            r@ == self@,
            r.names() == self.names(),
    {
        copy_object(self)
    }
}

/// The compact JSON text of a value.
pub uninterp spec fn json_text(content: Json) -> Seq<u8>;

/// The compact JSON text of an object with its members in the given order.
pub uninterp spec fn json_object_text(members: Seq<(Seq<char>, Json)>) -> Seq<u8>;

/// The value of a complete JSON text.
pub uninterp spec fn json_document(bytes: Seq<u8>) -> Option<Json>;

/// The value at the start of a text, whatever follows it.
pub uninterp spec fn json_prefix(bytes: Seq<u8>) -> Option<Json>;

/// How deep arrays and objects can be nested in a text that is read.
pub const MAX_DEPTH: u64 = 127;

/// Arrays and objects are nested at most `depth` deep, and every number is an
/// integer. Floating-point numbers are left out because reading the text of one
/// can give a neighbouring number.
pub open spec fn reads_back(content: Json, depth: nat) -> bool
    decreases depth,
{
    match content {
        Json::Float(_) => false,
        Json::Array(items) => depth > 0 && forall|i: int|
            0 <= i < items.len() ==> reads_back(#[trigger] items[i], (depth - 1) as nat),
        Json::Object(members) => depth > 0 && forall|name: Seq<char>| #[trigger]
            members.dom().contains(name) ==> reads_back(members[name], (depth - 1) as nat),
        _ => true,
    }
}

/// There is a byte, and none is a control character.
pub open spec fn printable(bytes: Seq<u8>) -> bool {
    bytes.len() > 0 && forall|i: int| 0 <= i < bytes.len() ==> #[trigger] bytes[i] >= 0x20
}

/// `serde_json::to_vec` on a `serde_json::Value`, which always succeeds: the
/// text depends on the content alone, is non-empty UTF-8 without control
/// characters, and reading it gives the content back where [`reads_back`] holds.
#[verifier::external_body]
fn to_vec(value: &serde_json::Value) -> (r: Vec<u8>)
    ensures
        r@ == json_text(value_content(*value)),
        printable(r@),
        vstd::utf8::valid_utf8(r@),
        reads_back(value_content(*value), MAX_DEPTH as nat) ==> json_document(r@) == Some(
            value_content(*value),
        ) && json_prefix(r@) == Some(value_content(*value)),
{
    serde_json::to_vec(value).expect("a JSON value always has a text")
}

/// `serde::Serializer::collect_map` on a compact `serde_json::Serializer`: the
/// text lists the members in the given order, is non-empty UTF-8 without control
/// characters, and reading it gives the members back where their names are
/// distinct and [`reads_back`] holds of their values.
#[verifier::external_body]
fn collect_map(members: &Vec<(String, serde_json::Value)>) -> (r: Vec<u8>)
    ensures
        r@ == json_object_text(member_contents(members@)),
        printable(r@),
        vstd::utf8::valid_utf8(r@),
        distinct_members(member_contents(members@)) && reads_back(
            Json::Object(member_map(member_contents(members@))),
            MAX_DEPTH as nat,
        ) ==> json_document(r@) == Some(Json::Object(member_map(member_contents(members@))))
            && json_prefix(r@) == Some(Json::Object(member_map(member_contents(members@)))),
{
    let mut text = Vec::new();
    let mut serializer = serde_json::Serializer::new(&mut text);
    serde::Serializer::collect_map(&mut serializer, members.iter().map(|m| (&m.0, &m.1)))
        .expect("JSON members always have a text");
    text
}

/// No two members share a name.
pub open spec fn distinct_members(members: Seq<(Seq<char>, Json)>) -> bool {
    forall|i: int, j: int|
        0 <= i < j < members.len() ==> (#[trigger] members[i]).0 != (#[trigger] members[j]).0
}

/// `serde_json::from_slice` into a `serde_json::Value`: the result depends on
/// the bytes alone, and a complete text starts with its own value.
#[verifier::external_body]
fn from_slice(bytes: &[u8]) -> (r: Option<serde_json::Value>)
    ensures
        r is Some <==> json_document(bytes@) is Some,
        r matches Some(value) ==> json_document(bytes@) == Some(value_content(value))
            && json_prefix(bytes@) == Some(value_content(value)),
{
    serde_json::from_slice(bytes).ok()
}

/// `serde_json::Value` deserialized by a `serde_json::Deserializer` that is not
/// asked for the end of its input: the result depends on the bytes alone.
#[verifier::external_body]
fn deserialize_prefix(bytes: &[u8]) -> (r: Option<serde_json::Value>)
    ensures
        r is Some <==> json_prefix(bytes@) is Some,
        r matches Some(value) ==> json_prefix(bytes@) == Some(value_content(value)),
{
    serde::Deserialize::deserialize(&mut serde_json::Deserializer::from_slice(bytes)).ok()
}

/// Reads a complete JSON text.
pub fn parse_json(bytes: &[u8]) -> (r: Option<JsonValue>)
    ensures
        r is Some <==> json_document(bytes@) is Some,
        r matches Some(value) ==> json_document(bytes@) == Some(value@) && json_prefix(bytes@)
            == Some(value@),
{
    match from_slice(bytes) {
        Some(value) => Some(import(value)),
        None => None,
    }
}

/// Reads the value at the start of a text.
pub fn parse_json_prefix(bytes: &[u8]) -> (r: Option<JsonValue>)
    ensures
        r is Some <==> json_prefix(bytes@) is Some,
        r matches Some(value) ==> json_prefix(bytes@) == Some(value@),
{
    match deserialize_prefix(bytes) {
        Some(value) => Some(import(value)),
        None => None,
    }
}

impl JsonValue {
    pub fn null() -> (r: Self)
        ensures
            r@ == Json::Null,
    {
        JsonValue::Null
    }

    pub fn text(source: &str) -> (r: Self)
        ensures
            r@ == Json::Str(source@),
    {
        let value = JsonValue::String(source.to_owned());
        proof {
            lemma_json_of(value);
        }
        value
    }

    pub fn object(members: JsonObject) -> (r: Self)
        ensures
            r@ == Json::Object(members@),
    {
        let value = JsonValue::Object(members);
        proof {
            lemma_json_of(value);
        }
        value
    }

    pub fn list(items: Vec<JsonValue>) -> (r: Self)
        ensures
            r@ == Json::Array(contents(items@)),
    {
        let value = JsonValue::Array(items);
        proof {
            lemma_json_of(value);
        }
        value
    }

    /// The compact text of the value. Reading the text gives the value back.
    pub fn to_text(&self) -> (r: Vec<u8>)
        ensures
            r@ == json_text(self@),
            printable(r@),
            vstd::utf8::valid_utf8(r@),
            reads_back(self@, MAX_DEPTH as nat) ==> json_document(r@) == Some(self@)
                && json_prefix(r@) == Some(self@),
    {
        to_vec(&export(self))
    }

    /// The member of an object with the given name.
    pub fn get(&self, name: &str) -> (r: Option<&JsonValue>)
        ensures
            match self@ {
                Json::Object(members) => {
                    &&& r is Some <==> members.dom().contains(name@)
                    &&& r matches Some(value) ==> value@ == members[name@]
                },
                _ => r is None,
            },
    {
        proof {
            lemma_json_of(*self);
        }
        match self {
            JsonValue::Object(object) => object.get(name),
            _ => None,
        }
    }

    /// The number that a value is, where it is an integer from zero on.
    pub fn as_unsigned(&self) -> (r: Option<u64>)
        ensures
            match self@ {
                Json::Unsigned(number) => r == Some(number),
                _ => r is None,
            },
    {
        proof {
            lemma_json_of(*self);
        }
        match self {
            JsonValue::Unsigned(number) => Some(*number),
            JsonValue::Negative(number) => nonnegative(*number),
            JsonValue::Float(_) => match unpack(export(self)) {
                JsonNode::Unsigned(number) => Some(number),
                JsonNode::Negative(number) => nonnegative(number),
                _ => None,
            },
            _ => None,
        }
    }

    /// The values of a structure with the given fields, in the order of the names.
    pub fn fields<'a>(&'a self, names: &[&str]) -> (r: Option<Vec<&'a JsonValue>>)
        ensures
            match field_values(self@, text::slices(names@)) {
                Some(fields) => r matches Some(found) && found@.len() == names@.len() && borrowed(found@)
                    == fields,
                None => r is None,
            },
    {
        proof {
            lemma_json_of(*self);
        }
        match self {
            JsonValue::Array(items) => {
                if items.len() != names.len() {
                    return None;
                }
                let mut found: Vec<&'a JsonValue> = Vec::new();
                let mut index: usize = 0;
                while index < items.len()
                    invariant
                        index <= items.len(),
                        borrowed(found@) == contents(items@).take(index as int),
                    decreases items.len() - index,
                {
                    let ghost before = found@;
                    found.push(&items[index]);
                    assert(borrowed(found@) =~= borrowed(before).push(items@[index as int]@));
                    assert(contents(items@).take(index + 1) =~= contents(items@).take(
                        index as int,
                    ).push(items@[index as int]@));
                    index += 1;
                }
                assert(contents(items@).take(index as int) =~= contents(items@));
                assert(borrowed(found@).len() == items@.len());
                Some(found)
            },
            JsonValue::Object(object) => take_members(object, names),
            _ => None,
        }
    }

    /// The text of a string value.
    pub fn as_str(&self) -> (r: Option<&str>)
        ensures
            match self@ {
                Json::Str(text) => r matches Some(s) && s@ == text,
                _ => r is None,
            },
    {
        proof {
            lemma_json_of(*self);
        }
        match self {
            JsonValue::String(text) => Some(text.as_str()),
            _ => None,
        }
    }
}

fn nonnegative(number: i64) -> (r: Option<u64>)
    ensures
        r == (if number < 0 {
            None
        } else {
            Some(number as u64)
        }),
{
    if number < 0 {
        None
    } else {
        Some(number as u64)
    }
}

/// The values of a structure with the given fields: those of an object that has
/// exactly these members, or of an array with one item for each.
pub open spec fn field_values(value: Json, names: Seq<Seq<char>>) -> Option<Seq<Json>> {
    match value {
        Json::Array(items) => if items.len() == names.len() {
            Some(items)
        } else {
            None
        },
        Json::Object(members) => if (forall|name: Seq<char>| #[trigger]
            members.dom().contains(name) <==> names.contains(name)) {
            Some(Seq::new(names.len(), |i: int| members[names[i]]))
        } else {
            None
        },
        _ => None,
    }
}

/// The fields of an object that was made of a list of members.
pub proof fn lemma_fields(listed: Seq<(Seq<char>, Json)>, names: Seq<Seq<char>>)
    requires
        distinct_members(listed),
        listed.len() == names.len(),
        forall|i: int| 0 <= i < listed.len() ==> (#[trigger] listed[i]).0 == names[i],
    ensures
        member_map(listed).dom() == names.to_set(),
        field_values(Json::Object(member_map(listed)), names) == Some(
            Seq::new(listed.len(), |i: int| listed[i].1),
        ),
{
    lemma_member_map(listed);
    let members = member_map(listed);
    assert forall|name: Seq<char>| #[trigger]
        members.dom().contains(name) <==> names.contains(name) by {
        if members.dom().contains(name) {
            let i = choose|i: int| 0 <= i < listed.len() && (#[trigger] listed[i]).0 == name;
            assert(names[i] == name);
        }
        if names.contains(name) {
            let i = choose|i: int| 0 <= i < names.len() && names[i] == name;
            assert(listed[i].0 == name);
        }
    }
    assert(members.dom() =~= names.to_set());
    assert(Seq::new(names.len(), |i: int| members[names[i]]) =~= Seq::new(
        listed.len(),
        |i: int| listed[i].1,
    )) by {
        assert forall|i: int| 0 <= i < names.len() implies members[names[i]] == listed[i].1 by {
            assert(members[listed[i].0] == listed[i].1);
        }
    }
}

/// The contents of borrowed values.
pub open spec fn borrowed(items: Seq<&JsonValue>) -> Seq<Json> {
    items.map_values(|item: &JsonValue| item@)
}

fn take_members<'a>(object: &'a JsonObject, names: &[&str]) -> (r: Option<Vec<&'a JsonValue>>)
    ensures
        match field_values(Json::Object(object@), text::slices(names@)) {
            Some(fields) => r matches Some(found) && found@.len() == names@.len() && borrowed(found@)
                == fields,
            None => r is None,
        },
{
    let ghost listed = text::slices(names@);
    if !object.has_only(names) {
        return None;
    }
    let mut found: Vec<&'a JsonValue> = Vec::new();
    let mut index: usize = 0;
    while index < names.len()
        invariant
            index <= names.len(),
            listed == text::slices(names@),
            forall|name: Seq<char>| #[trigger]
                object@.dom().contains(name) ==> listed.contains(name),
            forall|i: int| 0 <= i < index ==> object@.dom().contains(#[trigger] listed[i]),
            borrowed(found@) == Seq::new(index as nat, |i: int| object@[listed[i]]),
        decreases names.len() - index,
    {
        assert(listed[index as int] == names@[index as int]@);
        assert(listed.contains(listed[index as int]));
        let ghost before = found@;
        match object.get(names[index]) {
            Some(value) => {
                found.push(value);
                assert(borrowed(found@) =~= borrowed(before).push(value@));
                assert(Seq::new((index + 1) as nat, |i: int| object@[listed[i]]) =~= Seq::new(
                    index as nat,
                    |i: int| object@[listed[i]],
                ).push(value@));
            },
            None => return None,
        }
        index += 1;
    }
    proof {
        assert forall|name: Seq<char>| #[trigger]
            object@.dom().contains(name) <==> listed.contains(name) by {
            if listed.contains(name) {
                let i = choose|i: int| 0 <= i < listed.len() && listed[i] == name;
                assert(object@.dom().contains(listed[i]));
            }
        }
        assert(listed.len() == names@.len());
        assert(borrowed(found@).len() == names@.len());
    }
    Some(found)
}

/// The names and contents of a list of members.
pub open spec fn members_of(members: Seq<(String, JsonValue)>) -> Seq<(Seq<char>, Json)> {
    members.map_values(|member: (String, JsonValue)| (member.0@, member.1@))
}

/// The compact text of an object with its members in the given order. Reading
/// the text gives the members back.
pub fn object_text(members: &Vec<(String, JsonValue)>) -> (r: Vec<u8>)
    ensures
        r@ == json_object_text(members_of(members@)),
        printable(r@),
        vstd::utf8::valid_utf8(r@),
        distinct_members(members_of(members@)) && reads_back(
            Json::Object(member_map(members_of(members@))),
            MAX_DEPTH as nat,
        ) ==> json_document(r@) == Some(Json::Object(member_map(members_of(members@))))
            && json_prefix(r@) == Some(Json::Object(member_map(members_of(members@)))),
{
    let mut packed: Vec<(String, serde_json::Value)> = Vec::new();
    let mut index: usize = 0;
    while index < members.len()
        invariant
            index <= members.len(),
            member_contents(packed@) == members_of(members@).take(index as int),
        decreases members.len() - index,
    {
        let member = &members[index];
        let ghost before = packed@;
        packed.push((member.0.clone(), export(&member.1)));
        assert(member_contents(packed@) =~= member_contents(before).push(
            (member.0@, member.1@),
        ));
        assert(members_of(members@).take(index + 1) =~= members_of(members@).take(
            index as int,
        ).push((member.0@, member.1@)));
        index += 1;
    }
    assert(members_of(members@).take(index as int) =~= members_of(members@));
    collect_map(&packed)
}

/// A structure is read from an object with exactly its names, each field from its
/// own member, or from an array with an item for each; from nothing else.
pub proof fn structures_have_exactly_their_fields(
    value: &JsonValue,
    names: &[&str],
    r: Option<Vec<&JsonValue>>,
    members: Map<Seq<char>, Json>,
    items: Seq<Json>,
    i: int,
)
    requires
        call_ensures(JsonValue::fields, (value, names), r),
        0 <= i < names@.len(),
    ensures
        value@ == Json::Object(members) ==> {
            &&& r is Some <==> forall|name: Seq<char>| #[trigger]
                members.dom().contains(name) <==> text::slices(names@).contains(name)
            &&& r matches Some(found) ==> found@.len() == names@.len() && found@[i]@
                == members[names@[i]@]
        },
        value@ == Json::Array(items) ==> {
            &&& r is Some <==> items.len() == names@.len()
            &&& r matches Some(found) ==> found@.len() == items.len() && found@[i]@ == items[i]
        },
        !(value@ is Object) && !(value@ is Array) ==> r is None,
{
    if let Some(found) = r {
        assert(borrowed(found@)[i] == found@[i]@);
        assert(text::slices(names@)[i] == names@[i]@);
        assert(text::slices(names@).len() == names@.len());
        assert(borrowed(found@).len() == found@.len());
    }
}

/// A later member of a name replaces an earlier one, and each member counts.
pub proof fn later_members_count(members: Seq<(Seq<char>, Json)>, name: Seq<char>, value: Json)
    ensures
        member_map(members.push((name, value))) == member_map(members).insert(name, value),
        member_map(Seq::<(Seq<char>, Json)>::empty()) == Map::<Seq<char>, Json>::empty(),
{
    assert(members.push((name, value)).drop_last() =~= members);
}

} // verus!
