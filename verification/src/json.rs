//! JSON documents, as the configuration readers see them.

use vstd::prelude::*;

verus! {

/// A JSON value.  Numbers are kept as their presence only: nothing in the
/// analyzer reads a number.
#[derive(Debug)]
pub enum JsonValue {
    Null,
    Bool(bool),
    Number,
    Str(String),
    Array(Vec<JsonValue>),
    Object(Vec<(String, JsonValue)>),
}

/// A JSON value with its texts as character sequences.
pub enum Json {
    Null,
    Bool(bool),
    Number,
    Str(Seq<char>),
    Array(Seq<Json>),
    Object(Seq<(Seq<char>, Json)>),
}

pub open spec fn json_view(v: JsonValue) -> Json
    decreases v, 1nat,
{
    match v {
        JsonValue::Null => Json::Null,
        JsonValue::Bool(b) => Json::Bool(b),
        JsonValue::Number => Json::Number,
        JsonValue::Str(s) => Json::Str(s@),
        JsonValue::Array(a) => Json::Array(json_seq_view(a@)),
        JsonValue::Object(m) => Json::Object(json_members_view(m@)),
    }
}

pub open spec fn json_seq_view(s: Seq<JsonValue>) -> Seq<Json>
    decreases s, 0nat,
{
    if s.len() == 0 {
        Seq::empty()
    } else {
        json_seq_view(s.drop_last()).push(json_view(s.last()))
    }
}

pub open spec fn json_members_view(s: Seq<(String, JsonValue)>) -> Seq<(Seq<char>, Json)>
    decreases s, 0nat,
{
    if s.len() == 0 {
        Seq::empty()
    } else {
        json_members_view(s.drop_last()).push((s.last().0@, json_view(s.last().1)))
    }
}

impl View for JsonValue {
    type V = Json;

    open spec fn view(&self) -> Json {
        json_view(*self)
    }
}


/// What `serde_json` makes of a text: the document, or `None` when the text
/// is not JSON.
pub uninterp spec fn parsed_json(text: Seq<char>) -> Option<Json>;

/// The `serde_json::Value` type, carried into the conversion below.
#[verifier::external_type_specification]
#[verifier::external_body]
pub struct ExSerdeValue(serde_json::Value);

/// Converts a `serde_json::Value` variant by variant (numbers keep only
/// their presence).
#[verifier::external_body]
fn json_from_serde(v: serde_json::Value) -> JsonValue {
    match v {
        serde_json::Value::Null => JsonValue::Null,
        serde_json::Value::Bool(b) => JsonValue::Bool(b),
        serde_json::Value::Number(_) => JsonValue::Number,
        serde_json::Value::String(s) => JsonValue::Str(s),
        serde_json::Value::Array(a) => JsonValue::Array(a.into_iter().map(json_from_serde).collect()),
        serde_json::Value::Object(m) => JsonValue::Object(m.into_iter().map(|(k, x)| (k, json_from_serde(x))).collect()),
    }
}

/// Parses a JSON text with `serde_json::from_str` into a `serde_json::Value`.
/// The contract claims only that the result is the one `parsed_json` names
/// for the text: parsing is a function of the text alone.
#[verifier::external_body]
pub(crate) fn parse_json(text: &str) -> (r: Option<JsonValue>)
    ensures
        match r {
            Some(v) => parsed_json(text@) == Some(v@),
            None => parsed_json(text@) is None,
        },
{
    match serde_json::from_str::<serde_json::Value>(text) {
        Ok(v) => Some(json_from_serde(v)),
        Err(_) => None,
    }
}

/// The value of the first member named `key` in a list of object members.
pub open spec fn member_lookup(m: Seq<(Seq<char>, Json)>, key: Seq<char>) -> Option<Json>
    decreases m.len(),
{
    if m.len() == 0 {
        None
    } else if m[0].0 == key {
        Some(m[0].1)
    } else {
        member_lookup(m.drop_first(), key)
    }
}

/// The member `key` of an object; nothing for any other value.
pub open spec fn json_get(v: Json, key: Seq<char>) -> Option<Json> {
    match v {
        Json::Object(m) => member_lookup(m, key),
        _ => None,
    }
}

/// The text of a JSON string.
pub open spec fn json_str(v: Option<Json>) -> Option<Seq<char>> {
    match v {
        Some(Json::Str(s)) => Some(s),
        _ => None,
    }
}

proof fn lemma_members_view(m: Seq<(String, JsonValue)>, i: int)
    requires
        0 <= i < m.len(),
    ensures
        json_members_view(m).len() == m.len(),
        json_members_view(m)[i] == (m[i].0@, json_view(m[i].1)),
    decreases m.len(),
{
    lemma_members_len(m);
    if i < m.len() - 1 {
        lemma_members_view(m.drop_last(), i);
        assert(m.drop_last()[i] == m[i]);
    } else {
        lemma_members_len(m.drop_last());
    }
}

pub proof fn lemma_members_len(m: Seq<(String, JsonValue)>)
    ensures
        json_members_view(m).len() == m.len(),
    decreases m.len(),
{
    if m.len() > 0 {
        lemma_members_len(m.drop_last());
    }
}

pub proof fn lemma_members_index(m: Seq<(String, JsonValue)>, i: int)
    requires
        0 <= i < m.len(),
    ensures
        json_members_view(m)[i] == (m[i].0@, json_view(m[i].1)),
{
    lemma_members_view(m, i);
}

pub proof fn lemma_seq_view(s: Seq<JsonValue>)
    ensures
        json_seq_view(s).len() == s.len(),
        forall|i: int| 0 <= i < s.len() ==> json_seq_view(s)[i] == json_view(#[trigger] s[i]),
    decreases s.len(),
{
    if s.len() > 0 {
        lemma_seq_view(s.drop_last());
        assert forall|i: int| 0 <= i < s.len() implies json_seq_view(s)[i] == json_view(#[trigger] s[i]) by {
            if i < s.len() - 1 {
                assert(s.drop_last()[i] == s[i]);
            }
        }
    }
}

proof fn lemma_member_lookup_index(m: Seq<(Seq<char>, Json)>, key: Seq<char>, i: int)
    requires
        0 <= i < m.len(),
        m[i].0 == key,
        forall|j: int| 0 <= j < i ==> m[j].0 != key,
    ensures
        member_lookup(m, key) == Some(m[i].1),
    decreases m.len(),
{
    if i > 0 {
        lemma_member_lookup_index(m.drop_first(), key, i - 1);
    }
}

proof fn lemma_member_lookup_none(m: Seq<(Seq<char>, Json)>, key: Seq<char>)
    requires
        forall|j: int| 0 <= j < m.len() ==> m[j].0 != key,
    ensures
        member_lookup(m, key) is None,
    decreases m.len(),
{
    if m.len() > 0 {
        lemma_member_lookup_none(m.drop_first(), key);
    }
}

/// The member `key` of an object value.
pub fn get_member<'a>(v: &'a JsonValue, key: &str) -> (r: Option<&'a JsonValue>)
    ensures
        match r {
            Some(x) => json_get(v@, key@) == Some(x@),
            None => json_get(v@, key@) is None,
        },
{
    match v {
        JsonValue::Object(m) => {
            let ghost mv = json_members_view(m@);
            proof {
                lemma_members_len(m@);
            }
            assert(v@ == Json::Object(mv));
            let n = m.len();
            let mut i: usize = 0;
            while i < n
                invariant
                    n == m@.len(),
                    mv == json_members_view(m@),
                    mv.len() == n,
                    v@ == Json::Object(mv),
                    i <= n,
                    forall|j: int| 0 <= j < i ==> mv[j].0 != key@,
                decreases n - i,
            {
                proof {
                    lemma_members_index(m@, i as int);
                }
                if crate::text::str_eq(m[i].0.as_str(), key) {
                    proof {
                        lemma_member_lookup_index(mv, key@, i as int);
                        assert(json_get(v@, key@) == Some(json_view(m@[i as int].1)));
                    }
                    let x = &m[i].1;
                    assert(x@ == json_view(m@[i as int].1));
                    return Some(x);
                }
                i = i + 1;
            }
            proof {
                lemma_member_lookup_none(mv, key@);
            }
            None
        },
        _ => None,
    }
}

/// The view of an optional value.
pub open spec fn opt_json(v: Option<&JsonValue>) -> Option<Json> {
    match v {
        Some(x) => Some(x@),
        None => None,
    }
}

/// The text of a string value.
pub fn as_str(v: Option<&JsonValue>) -> (r: Option<&String>)
    ensures
        match r {
            Some(s) => json_str(opt_json(v)) == Some(s@),
            None => json_str(opt_json(v)) is None,
        },
{
    match v {
        Some(JsonValue::Str(s)) => Some(s),
        _ => None,
    }
}

} // verus!
