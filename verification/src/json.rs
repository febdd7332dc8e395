//! JSON documents as plain data, and the bridge to `serde_json`, which reads
//! and writes their text.
//!
//! The library never inspects a `serde_json::Value`: it is converted, one for
//! one, into a [`Json`], and all rules are stated over its view, a
//! [`JsonValue`]. An object keeps its members in order; `serde_json` is built
//! with `preserve_order`, so that a `Map` walks its members in the order in
//! which they were inserted.

use crate::model::{distinct_keys, has_key, key_index, keys_distinct};
use crate::text::is_outcome;
use vstd::prelude::*;

verus! {

#[verifier::external_type_specification]
#[verifier::external_body]
pub struct ExJsonNumber(serde_json::Number);

#[verifier::external_type_specification]
#[verifier::external_body]
pub struct ExJsonValue(serde_json::Value);

/// A JSON document. The members of an object stand in their order; in a
/// well-formed document no object has two members of one name.
#[derive(Debug, PartialEq, Eq)]
pub enum Json {
    Null,
    Bool(bool),
    Number(serde_json::Number),
    Str(String),
    Array(Vec<Json>),
    Object(Vec<(String, Json)>),
}

/// The mathematical value of a [`Json`].
pub ghost enum JsonValue {
    Null,
    Bool(bool),
    Number(serde_json::Number),
    Str(Seq<char>),
    Array(Seq<JsonValue>),
    Object(Seq<(Seq<char>, JsonValue)>),
}

/// The value of `j`.
pub open spec fn json_value(j: Json) -> JsonValue
    decreases j,
{
    match j {
        Json::Null => JsonValue::Null,
        Json::Bool(b) => JsonValue::Bool(b),
        Json::Number(n) => JsonValue::Number(n),
        Json::Str(s) => JsonValue::Str(s@),
        Json::Array(items) => JsonValue::Array(
            Seq::new(
                items@.len(),
                |i: int|
                    if 0 <= i < items@.len() {
                        json_value(items@[i])
                    } else {
                        JsonValue::Null
                    },
            ),
        ),
        Json::Object(members) => JsonValue::Object(
            Seq::new(
                members@.len(),
                |i: int|
                    if 0 <= i < members@.len() {
                        (members@[i].0@, json_value(members@[i].1))
                    } else {
                        (Seq::empty(), JsonValue::Null)
                    },
            ),
        ),
    }
}

impl View for Json {
    type V = JsonValue;

    open spec fn view(&self) -> JsonValue {
        json_value(*self)
    }
}

impl DeepView for Json {
    type V = JsonValue;

    open spec fn deep_view(&self) -> JsonValue {
        self.view()
    }
}

/// The view of an array is the views of its items.
pub proof fn lemma_array_view(items: Vec<Json>)
    ensures
        Json::Array(items)@ == JsonValue::Array(items.deep_view()),
{
    assert(Json::Array(items)@->Array_0 =~= items.deep_view());
}

/// The view of an object is the names and views of its members.
pub proof fn lemma_object_view(members: Vec<(String, Json)>)
    ensures
        Json::Object(members)@ == JsonValue::Object(members.deep_view()),
{
    let a = Json::Object(members)@->Object_0;
    let b = members.deep_view();
    assert forall|i: int| 0 <= i < a.len() implies a[i] == b[i] by {
        assert(b[i] == members@[i].deep_view());
    }
    assert(a =~= b);
}

/// Whether no object in `v` has two members of one name.
pub open spec fn json_wf(v: JsonValue) -> bool
    decreases v,
{
    match v {
        JsonValue::Array(items) => forall|i: int|
            0 <= i < items.len() ==> json_wf(#[trigger] items[i]),
        JsonValue::Object(members) => keys_distinct(members) && forall|i: int|
            0 <= i < members.len() ==> json_wf((#[trigger] members[i]).1),
        _ => true,
    }
}

/// The member `key` of the object `v`: the first of that name. `None` where
/// `v` is no object or has no such member.
pub open spec fn member(v: JsonValue, key: Seq<char>) -> Option<JsonValue> {
    match v {
        JsonValue::Object(members) => if has_key(members, key) {
            Some(members[key_index(members, key) as int].1)
        } else {
            None
        },
        _ => None,
    }
}

/// What a `serde_json::Value` holds.
pub uninterp spec fn value_model(v: serde_json::Value) -> JsonValue;

/// What `serde_json::from_str` makes of a text: the document that it reads,
/// or the message of the error with which it refuses the text.
pub uninterp spec fn parse_outcome(text: Seq<char>) -> Result<JsonValue, Seq<char>>;

/// What `serde_json::to_string` makes of a document: its compact text, or
/// the message of the error with which it fails.
pub uninterp spec fn rendered(v: JsonValue) -> Result<Seq<char>, Seq<char>>;

/// What `serde_json::to_string_pretty` makes of a document: its indented
/// text, or the message of the error with which it fails.
pub uninterp spec fn rendered_pretty(v: JsonValue) -> Result<Seq<char>, Seq<char>>;

/// Calls `serde_json::from_str` for a `Value`. The result is, by
/// definition, [`parse_outcome`] of the text: the value read, or the error's
/// message as its `Display` gives it.
#[verifier::external_body]
fn parse_value(text: &str) -> (r: Result<serde_json::Value, String>)
    ensures
        match r {
            Ok(v) => parse_outcome(text@) == Ok::<JsonValue, Seq<char>>(value_model(v)),
            Err(m) => parse_outcome(text@) == Err::<JsonValue, Seq<char>>(m@),
        },
{
    match serde_json::from_str::<serde_json::Value>(text) {
        Ok(v) => Ok(v),
        Err(e) => Err(e.to_string()),
    }
}

/// Takes a `serde_json::Value` apart, variant by variant, into a [`Json`]
/// that holds the same. The members of a `Map` come out in its order; a
/// `Map` holds each key once, so the result is well-formed.
#[verifier::external_body]
fn json_of_value(v: serde_json::Value) -> (j: Json)
    ensures
        j@ == value_model(v),
        json_wf(j@),
{
    match v {
        serde_json::Value::Null => Json::Null,
        serde_json::Value::Bool(b) => Json::Bool(b),
        serde_json::Value::Number(n) => Json::Number(n),
        serde_json::Value::String(s) => Json::Str(s),
        serde_json::Value::Array(a) => Json::Array(a.into_iter().map(json_of_value).collect()),
        serde_json::Value::Object(m) => Json::Object(
            m.into_iter().map(|(k, x)| (k, json_of_value(x))).collect(),
        ),
    }
}

/// Builds the `serde_json::Value` that holds what `j` holds, variant by
/// variant. The members of an object are inserted into the `Map` in their
/// order; where no name occurs twice, the `Map` holds them all, in that
/// order.
#[verifier::external_body]
fn value_of_json(j: &Json) -> (v: serde_json::Value)
    ensures
        json_wf(j@) ==> value_model(v) == j@,
{
    match j {
        Json::Null => serde_json::Value::Null,
        Json::Bool(b) => serde_json::Value::Bool(*b),
        Json::Number(n) => serde_json::Value::Number(n.clone()),
        Json::Str(s) => serde_json::Value::String(s.clone()),
        Json::Array(a) => serde_json::Value::Array(a.iter().map(value_of_json).collect()),
        Json::Object(m) => serde_json::Value::Object(
            m.iter().map(|(k, x)| (k.clone(), value_of_json(x))).collect(),
        ),
    }
}

/// Calls `serde_json::to_string` on a `Value`. The result is, by
/// definition, [`rendered`] of what the value holds.
#[verifier::external_body]
fn render_value(v: &serde_json::Value) -> (r: Result<String, String>)
    ensures
        is_outcome(r, rendered(value_model(*v))),
{
    match serde_json::to_string(v) {
        Ok(s) => Ok(s),
        Err(e) => Err(e.to_string()),
    }
}

/// Calls `serde_json::to_string_pretty` on a `Value`. The result is, by
/// definition, [`rendered_pretty`] of what the value holds.
#[verifier::external_body]
fn render_value_pretty(v: &serde_json::Value) -> (r: Result<String, String>)
    ensures
        is_outcome(r, rendered_pretty(value_model(*v))),
{
    match serde_json::to_string_pretty(v) {
        Ok(s) => Ok(s),
        Err(e) => Err(e.to_string()),
    }
}

/// Calls `Number::clone`: the copy is the number.
#[verifier::external_body]
fn clone_number(n: &serde_json::Number) -> (r: serde_json::Number)
    ensures
        r == *n,
{
    n.clone()
}

/// Reads a JSON text: the document, or the parser's message.
pub fn parse_json(text: &str) -> (r: Result<Json, String>)
    ensures
        match r {
            Ok(j) => parse_outcome(text@) == Ok::<JsonValue, Seq<char>>(j@) && json_wf(j@),
            Err(m) => parse_outcome(text@) == Err::<JsonValue, Seq<char>>(m@),
        },
{
    match parse_value(text) {
        Ok(v) => Ok(json_of_value(v)),
        Err(m) => Err(m),
    }
}

/// Whether no object in `j` has two members of one name.
pub fn is_well_formed(j: &Json) -> (b: bool)
    ensures
        b == json_wf(j@),
    decreases j,
{
    match j {
        Json::Array(items) => {
            proof {
                lemma_array_view(*items);
            }
            let mut i: usize = 0;
            while i < items.len()
                invariant
                    i <= items.len(),
                    *j == Json::Array(*items),
                    j@ == JsonValue::Array(items.deep_view()),
                    forall|k: int| 0 <= k < i ==> json_wf(#[trigger] items.deep_view()[k]),
                decreases items.len() - i,
            {
                proof {
                    assert(decreases_to!(*j => (*j)->Array_0));
                    assert(items.deep_view()[i as int] == items[i as int]@);
                }
                if !is_well_formed(&items[i]) {
                    proof {
                        let all = items.deep_view();
                        assert(j@->Array_0 == all);
                        assert(!json_wf(all[i as int]));
                    }
                    return false;
                }
                i += 1;
            }
            true
        },
        Json::Object(members) => {
            proof {
                lemma_object_view(*members);
            }
            if !distinct_keys(members) {
                return false;
            }
            let mut i: usize = 0;
            while i < members.len()
                invariant
                    i <= members.len(),
                    *j == Json::Object(*members),
                    j@ == JsonValue::Object(members.deep_view()),
                    keys_distinct(members.deep_view()),
                    forall|k: int| 0 <= k < i ==> json_wf((#[trigger] members.deep_view()[k]).1),
                decreases members.len() - i,
            {
                let member = &members[i];
                proof {
                    assert(decreases_to!(*j => (*j)->Object_0));
                    assert(decreases_to!(members[i as int] => members[i as int].1));
                    assert(members.deep_view()[i as int].1 == member.1@);
                }
                if !is_well_formed(&member.1) {
                    proof {
                        let all = members.deep_view();
                        assert(j@->Object_0 == all);
                        assert(!json_wf(all[i as int].1));
                    }
                    return false;
                }
                i += 1;
            }
            true
        },
        _ => true,
    }
}

/// What is said of a document in which an object has two members of one
/// name.
pub open spec fn repeated_member() -> Seq<char> {
    "an object has two members of one name"@
}

/// The compact text of a document, or the message with which writing it
/// fails. A document that is not well-formed has no text.
pub open spec fn compact_text(v: JsonValue) -> Result<Seq<char>, Seq<char>> {
    if json_wf(v) {
        rendered(v)
    } else {
        Err(repeated_member())
    }
}

/// The indented text of a document, or the message with which writing it
/// fails. A document that is not well-formed has no text.
pub open spec fn pretty_text(v: JsonValue) -> Result<Seq<char>, Seq<char>> {
    if json_wf(v) {
        rendered_pretty(v)
    } else {
        Err(repeated_member())
    }
}

/// Writes a document as compact JSON text.
pub fn render_json(j: &Json) -> (r: Result<String, String>)
    ensures
        is_outcome(r, compact_text(j@)),
{
    if !is_well_formed(j) {
        return Err("an object has two members of one name".to_string());
    }
    let v = value_of_json(j);
    render_value(&v)
}

/// Writes a document as indented JSON text.
pub fn render_json_pretty(j: &Json) -> (r: Result<String, String>)
    ensures
        is_outcome(r, pretty_text(j@)),
{
    if !is_well_formed(j) {
        return Err("an object has two members of one name".to_string());
    }
    let v = value_of_json(j);
    render_value_pretty(&v)
}

/// A copy of `j`.
fn copy_json(j: &Json) -> (r: Json)
    ensures
        r@ == j@,
    decreases j,
{
    match j {
        Json::Null => Json::Null,
        Json::Bool(b) => Json::Bool(*b),
        Json::Number(n) => Json::Number(clone_number(n)),
        Json::Str(s) => Json::Str(s.clone()),
        Json::Array(items) => {
            let mut copy: Vec<Json> = Vec::new();
            let mut i: usize = 0;
            while i < items.len()
                invariant
                    i <= items.len(),
                    *j == Json::Array(*items),
                    copy.len() == i,
                    forall|k: int| 0 <= k < i ==> copy[k]@ == items[k]@,
                decreases items.len() - i,
            {
                proof {
                    assert(decreases_to!(*j => (*j)->Array_0));
                }
                copy.push(copy_json(&items[i]));
                i += 1;
            }
            proof {
                lemma_array_view(copy);
                lemma_array_view(*items);
                assert(copy.deep_view() =~= items.deep_view());
            }
            Json::Array(copy)
        },
        Json::Object(members) => {
            let mut copy: Vec<(String, Json)> = Vec::new();
            let mut i: usize = 0;
            while i < members.len()
                invariant
                    i <= members.len(),
                    *j == Json::Object(*members),
                    copy.len() == i,
                    forall|k: int|
                        0 <= k < i ==> copy[k].0@ == members[k].0@ && copy[k].1@ == members[k].1@,
                decreases members.len() - i,
            {
                let member = &members[i];
                proof {
                    assert(decreases_to!(*j => (*j)->Object_0));
                    assert(decreases_to!(members[i as int] => members[i as int].1));
                }
                copy.push((member.0.clone(), copy_json(&member.1)));
                i += 1;
            }
            proof {
                lemma_object_view(copy);
                lemma_object_view(*members);
                assert(copy.deep_view() =~= members.deep_view());
            }
            Json::Object(copy)
        },
    }
}

impl Clone for Json {
    fn clone(&self) -> (r: Json)
        ensures
            r@ == self@,
    {
        copy_json(self)
    }
}

impl Json {
    /// The member `key` of this object: the first of that name.
    pub fn get(&self, key: &str) -> (r: Option<&Json>)
        ensures
            r.deep_view() == member(self@, key@),
    {
        match self {
            Json::Object(members) => {
                proof {
                    lemma_object_view(*members);
                }
                let ghost all = members.deep_view();
                let target = key.to_string();
                let n = members.len();
                let mut i: usize = 0;
                assert(all.subrange(0, n as int) == all);
                while i < n
                    invariant
                        n == members.len(),
                        i <= n,
                        all == members.deep_view(),
                        self@ == JsonValue::Object(all),
                        target@ == key@,
                        key_index(all, key@) == i + key_index(
                            all.subrange(i as int, n as int),
                            key@,
                        ),
                    decreases n - i,
                {
                    let ghost rest = all.subrange(i as int, n as int);
                    assert(rest[0] == all[i as int]);
                    assert(all[i as int] == (members[i as int].0@, members[i as int].1@));
                    if members[i].0 == target {
                        return Some(&members[i].1);
                    }
                    assert(rest.drop_first() == all.subrange(i + 1, n as int));
                    i += 1;
                }
                None
            },
            _ => None,
        }
    }

    /// An object with the given members.
    pub fn object(members: Vec<(String, Json)>) -> (j: Json)
        ensures
            j@ == JsonValue::Object(members.deep_view()),
    {
        proof {
            lemma_object_view(members);
        }
        Json::Object(members)
    }

    /// An array with the given items.
    pub fn array(items: Vec<Json>) -> (j: Json)
        ensures
            j@ == JsonValue::Array(items.deep_view()),
    {
        proof {
            lemma_array_view(items);
        }
        Json::Array(items)
    }

    /// The array without items.
    pub fn empty_array() -> (j: Json)
        ensures
            j@ == JsonValue::Array(Seq::empty()),
    {
        let items: Vec<Json> = Vec::new();
        assert(items.deep_view() =~= Seq::<JsonValue>::empty());
        Json::array(items)
    }

    /// The object without members.
    pub fn empty_object() -> (j: Json)
        ensures
            j@ == JsonValue::Object(Seq::empty()),
    {
        let members: Vec<(String, Json)> = Vec::new();
        assert(members.deep_view() =~= Seq::<(Seq<char>, JsonValue)>::empty());
        Json::object(members)
    }

    /// A string.
    pub fn text(s: &str) -> (j: Json)
        ensures
            j@ == JsonValue::Str(s@),
    {
        Json::Str(s.to_string())
    }
}

} // verus!
