//! JSON documents (`auth.json`, session records, cc-switch settings) as a value of the
//! library's own type. Parsing and printing go through `serde_json`.

use vstd::prelude::*;
use crate::text::{chars_of, str_eq};

verus! {

#[verifier::external_type_specification]
#[verifier::external_body]
pub struct ExJsonNumber(serde_json::Number);

/// A JSON value. Objects list their members in the order `serde_json` yields them.
#[derive(Debug)]
pub enum JsonValue {
    Null,
    Bool(bool),
    Number(serde_json::Number),
    Str(String),
    Array(Vec<JsonValue>),
    Object(Vec<(String, JsonValue)>),
}

/// The mathematical model of a JSON value.
pub enum JsonModel {
    Null,
    Bool(bool),
    Number(serde_json::Number),
    Str(Seq<char>),
    Array(Seq<JsonModel>),
    Object(Seq<(Seq<char>, JsonModel)>),
}

impl JsonValue {
    pub open spec fn model(&self) -> JsonModel
        decreases self,
    {
        match self {
            JsonValue::Null => JsonModel::Null,
            JsonValue::Bool(b) => JsonModel::Bool(*b),
            JsonValue::Number(n) => JsonModel::Number(*n),
            JsonValue::Str(s) => JsonModel::Str(s@),
            JsonValue::Array(items) => JsonModel::Array(
                Seq::new(
                    items@.len(),
                    |i: int|
                        if 0 <= i < items@.len() {
                            items@[i].model()
                        } else {
                            JsonModel::Null
                        },
                ),
            ),
            JsonValue::Object(members) => JsonModel::Object(
                Seq::new(
                    members@.len(),
                    |i: int|
                        if 0 <= i < members@.len() {
                            (members@[i].0@, members@[i].1.model())
                        } else {
                            (Seq::empty(), JsonModel::Null)
                        },
                ),
            ),
        }
    }
}

impl View for JsonValue {
    type V = JsonModel;

    open spec fn view(&self) -> JsonModel {
        self.model()
    }
}


#[verifier::external_type_specification]
#[verifier::external_body]
pub struct ExSerdeValue(serde_json::Value);

/// The model of the document `serde_json::from_str::<Value>` reads from `text`, or `None`
/// where it reports an error. It is a function of the text alone.
pub uninterp spec fn json_parse_spec(text: Seq<char>) -> Option<JsonModel>;

/// The text `serde_json::to_string` writes for a value with this model.
pub uninterp spec fn json_compact_spec(v: JsonModel) -> Seq<char>;

/// The text `serde_json::to_string_pretty` writes for a value with this model.
pub uninterp spec fn json_pretty_spec(v: JsonModel) -> Seq<char>;

/// Moves a `serde_json::Value` into the library's type, member for member.
#[verifier::external_body]
fn json_from_serde(v: serde_json::Value) -> JsonValue {
    match v {
        serde_json::Value::Null => JsonValue::Null,
        serde_json::Value::Bool(b) => JsonValue::Bool(b),
        serde_json::Value::Number(n) => JsonValue::Number(n),
        serde_json::Value::String(s) => JsonValue::Str(s),
        serde_json::Value::Array(a) => JsonValue::Array(a.into_iter().map(json_from_serde).collect()),
        serde_json::Value::Object(o) => JsonValue::Object(
            o.into_iter().map(|(k, x)| (k, json_from_serde(x))).collect(),
        ),
    }
}

/// Copies a value of the library's type into a `serde_json::Value`, member for member.
#[verifier::external_body]
fn json_to_serde(v: &JsonValue) -> serde_json::Value {
    match v {
        JsonValue::Null => serde_json::Value::Null,
        JsonValue::Bool(b) => serde_json::Value::Bool(*b),
        JsonValue::Number(n) => serde_json::Value::Number(n.clone()),
        JsonValue::Str(s) => serde_json::Value::String(s.clone()),
        JsonValue::Array(a) => serde_json::Value::Array(a.iter().map(json_to_serde).collect()),
        JsonValue::Object(o) => serde_json::Value::Object(
            o.iter().map(|(k, x)| (k.clone(), json_to_serde(x))).collect(),
        ),
    }
}

/// No two members of one object have the same name, anywhere in `v`.
pub open spec fn json_keys_unique(v: JsonModel) -> bool
    decreases v,
{
    match v {
        JsonModel::Array(xs) => forall|i: int| #![trigger xs[i]] 0 <= i < xs.len() ==> json_keys_unique(xs[i]),
        JsonModel::Object(ms) => {
            &&& forall|i: int, j: int| #![trigger ms[i], ms[j]] 0 <= i < j < ms.len() ==> ms[i].0 != ms[j].0
            &&& forall|i: int| #![trigger ms[i]] 0 <= i < ms.len() ==> json_keys_unique(ms[i].1)
        },
        _ => true,
    }
}

/// `w` has the shape of `v`: the same null, booleans and strings, a number where `v` has one
/// (its value may differ), arrays of the same length with like items, and objects with as
/// many members, each member of `v` found by name in `w` with a like value.
pub open spec fn json_similar(v: JsonModel, w: JsonModel) -> bool
    decreases v,
{
    match v {
        JsonModel::Null => w is Null,
        JsonModel::Bool(b) => w == JsonModel::Bool(b),
        JsonModel::Number(_) => w is Number,
        JsonModel::Str(s) => w == JsonModel::Str(s),
        JsonModel::Array(xs) => match w {
            JsonModel::Array(ys) => xs.len() == ys.len() && forall|i: int| #![trigger xs[i]] 0 <= i < xs.len()
                ==> json_similar(xs[i], ys[i]),
            _ => false,
        },
        JsonModel::Object(ms) => match w {
            JsonModel::Object(ns) => ms.len() == ns.len() && forall|i: int| #![trigger ms[i]] 0 <= i < ms.len()
                ==> (member_index(ns, ms[i].0, ns.len() as int) matches Some(j) && json_similar(ms[i].1, ns[j].1)),
            _ => false,
        },
    }
}

/// `serde_json::from_str::<serde_json::Value>`: succeeds exactly where the name says, with
/// the value it names. Objects of a `Value` are maps, so no object of the result names a
/// member twice.
#[verifier::external_body]
pub(crate) fn json_parse(text: &str) -> (r: Result<JsonValue, serde_json::Error>)
    ensures
        r is Ok <==> json_parse_spec(text@) is Some,
        r matches Ok(v) ==> json_parse_spec(text@) == Some(v@),
        r matches Ok(v) ==> json_keys_unique(v@),
{
    serde_json::from_str::<serde_json::Value>(text).map(json_from_serde)
}

/// `serde_json::to_string` of the value as a `serde_json::Value`. Its documentation names
/// two causes of failure, a `Serialize` impl that fails and a map with non-string keys;
/// neither occurs for a `Value`, so it succeeds, with the text the name says. The compact
/// form writes no whitespace between tokens and escapes every control character in
/// strings, so it holds no line feed and no carriage return. Where no object of the value
/// names a member twice, every member is written, and `from_str` reads such text back (when
/// it does: it may refuse deep nesting, and need not give back a float bit for bit) as a
/// value of the same shape.
#[verifier::external_body]
pub(crate) fn json_to_compact(v: &JsonValue) -> (r: Result<String, serde_json::Error>)
    ensures
        r is Ok,
        r matches Ok(s) ==> s@ == json_compact_spec(v@),
        r matches Ok(s) ==> !s@.contains('\n') && !s@.contains('\r'),
        r matches Ok(s) ==> (json_keys_unique(v@) && json_parse_spec(s@) is Some ==> json_similar(
            v@,
            json_parse_spec(s@)->0,
        )),
{
    serde_json::to_string(&json_to_serde(v))
}

/// `serde_json::to_string_pretty` of the value as a `serde_json::Value`; it succeeds for the
/// same reason as `json_to_compact`, with the text the name says.
#[verifier::external_body]
pub(crate) fn json_to_pretty(v: &JsonValue) -> (r: Result<String, serde_json::Error>)
    ensures
        r is Ok,
        r matches Ok(s) ==> s@ == json_pretty_spec(v@),
{
    serde_json::to_string_pretty(&json_to_serde(v))
}

/// `serde_json::Error::to_string`; nothing is stated of the message.
#[verifier::external_body]
pub(crate) fn json_error_message(e: &serde_json::Error) -> (r: String) {
    e.to_string()
}

/// The least index below `n` of a member named `key`.
pub open spec fn member_index(ms: Seq<(Seq<char>, JsonModel)>, key: Seq<char>, n: int) -> Option<int>
    decreases n,
{
    if n <= 0 {
        None
    } else if member_index(ms, key, n - 1) is Some {
        member_index(ms, key, n - 1)
    } else if n - 1 < ms.len() && ms[n - 1].0 == key {
        Some(n - 1)
    } else {
        None
    }
}

/// The member `key` of an object (`Value::get` with a string index).
pub open spec fn model_get(m: JsonModel, key: Seq<char>) -> Option<JsonModel> {
    match m {
        JsonModel::Object(ms) => match member_index(ms, key, ms.len() as int) {
            Some(i) => Some(ms[i].1),
            None => None,
        },
        _ => None,
    }
}

/// The string member `key`, if it is a string (`get(key).and_then(Value::as_str)`).
pub open spec fn str_member(m: JsonModel, key: Seq<char>) -> Option<Seq<char>> {
    match model_get(m, key) {
        Some(JsonModel::Str(s)) => Some(s),
        _ => None,
    }
}

/// The members of an object with `key` set to `val`: in place when present, else appended
/// (`Map::insert`).
pub open spec fn set_member(ms: Seq<(Seq<char>, JsonModel)>, key: Seq<char>, val: JsonModel) -> Seq<
    (Seq<char>, JsonModel),
> {
    match member_index(ms, key, ms.len() as int) {
        Some(i) => ms.update(i, (key, val)),
        None => ms.push((key, val)),
    }
}

/// Where `member_index` finds a key: within bounds, at a member with that key; and when
/// it finds none, no member below `n` has the key.
pub proof fn lemma_member_index_bounds(ms: Seq<(Seq<char>, JsonModel)>, key: Seq<char>, n: int)
    ensures
        member_index(ms, key, n) matches Some(i) ==> 0 <= i < n && i < ms.len() && ms[i].0 == key,
        member_index(ms, key, n) is None ==> forall|k: int| 0 <= k < n && k < ms.len() ==> ms[k].0 != key,
    decreases n,
{
    if n > 0 {
        lemma_member_index_bounds(ms, key, n - 1);
    }
}

/// Once found below `m`, a key is found at the same place below any larger bound.
pub proof fn lemma_member_index_stable(ms: Seq<(Seq<char>, JsonModel)>, key: Seq<char>, m: int, n: int)
    requires
        m <= n,
        member_index(ms, key, m) is Some,
    ensures
        member_index(ms, key, n) == member_index(ms, key, m),
    decreases n - m,
{
    if m < n {
        lemma_member_index_stable(ms, key, m, n - 1);
    }
}

/// The index of the first member named `key`.
pub fn find_member(members: &Vec<(String, JsonValue)>, key: &str) -> (r: Option<usize>)
    ensures
        ({
            let ms = JsonValue::Object(*members)@->Object_0;
            &&& member_index(ms, key@, ms.len() as int) == match r {
                Some(i) => Some(i as int),
                None => None::<int>,
            }
            &&& ms.len() == members@.len()
        }),
        r matches Some(i) ==> i < members@.len(),
{
    let ghost ms = JsonValue::Object(*members)@->Object_0;
    assert(ms.len() == members@.len());
    let mut i: usize = 0;
    while i < members.len()
        invariant
            i <= members@.len(),
            ms == JsonValue::Object(*members)@->Object_0,
            ms.len() == members@.len(),
            member_index(ms, key@, i as int) is None,
        decreases members@.len() - i,
    {
        assert(ms[i as int].0 == members@[i as int].0@);
        if str_eq(members[i].0.as_str(), key) {
            assert(member_index(ms, key@, i + 1) == Some(i as int));
            proof { lemma_member_index_stable(ms, key@, i + 1, ms.len() as int); }
            return Some(i);
        }
        i = i + 1;
    }
    None
}

/// `Value::get(key)`.
pub fn json_get<'a>(v: &'a JsonValue, key: &str) -> (r: Option<&'a JsonValue>)
    ensures
        match r {
            Some(x) => model_get(v@, key@) == Some(x@),
            None => model_get(v@, key@) is None,
        },
{
    match v {
        JsonValue::Object(members) => {
            match find_member(members, key) {
                Some(i) => {
                    let ghost ms = v@->Object_0;
                    assert(ms[i as int] == (members@[i as int].0@, members@[i as int].1@));
                    Some(&members[i].1)
                },
                None => None,
            }
        },
        _ => None,
    }
}

/// `Value::as_str`.
pub fn json_as_str(v: &JsonValue) -> (r: Option<&String>)
    ensures
        match r {
            Some(s) => v@ == JsonModel::Str(s@),
            None => !(v@ is Str),
        },
{
    match v {
        JsonValue::Str(s) => Some(s),
        _ => None,
    }
}

/// `get(key).and_then(Value::as_str)`.
pub fn json_str_member<'a>(v: &'a JsonValue, key: &str) -> (r: Option<&'a String>)
    ensures
        match r {
            Some(s) => str_member(v@, key@) == Some(s@),
            None => str_member(v@, key@) is None,
        },
{
    match json_get(v, key) {
        Some(x) => json_as_str(x),
        None => None,
    }
}

} // verus!
