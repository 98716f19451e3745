//! JSON values as plain data, for the records the agent exchanges with Pi.
use vstd::prelude::*;
use crate::app_shell::opt_view;
use serde_json::Value;

verus! {

#[verifier::external_type_specification]
#[verifier::external_body]
pub struct ExValue(Value);

/// A JSON number. Integers are held exactly; a number with a fraction or
/// exponent keeps its text and the two roundings the protocol reads from
/// it: millionths (`value * 1e6` rounded into `0..=1e15`) and a whole
/// percentage (rounded into `0..=100`).
#[derive(Debug, PartialEq, Eq)]
pub enum JsonNumber {
    Unsigned(u64),
    Signed(i64),
    Float { text: String, millionths: u64, percent: u64 },
}

#[derive(Debug, PartialEq, Eq)]
pub enum JsonValue {
    Null,
    Bool(bool),
    Number(JsonNumber),
    String(String),
    Array(Vec<JsonValue>),
    Object(Vec<(String, JsonValue)>),
}

/// A JSON value as mathematical data.
pub ghost enum Json {
    Null,
    Bool(bool),
    Unsigned(u64),
    Signed(i64),
    Float(Seq<char>, u64, u64),
    Str(Seq<char>),
    Array(Seq<Json>),
    Object(Seq<(Seq<char>, Json)>),
}

pub open spec fn json_view(v: JsonValue) -> Json
    decreases v,
{
    match v {
        JsonValue::Null => Json::Null,
        JsonValue::Bool(b) => Json::Bool(b),
        JsonValue::Number(JsonNumber::Unsigned(n)) => Json::Unsigned(n),
        JsonValue::Number(JsonNumber::Signed(n)) => Json::Signed(n),
        JsonValue::Number(JsonNumber::Float { text, millionths, percent }) => Json::Float(text@, millionths, percent),
        JsonValue::String(s) => Json::Str(s@),
        JsonValue::Array(items) => Json::Array(json_views(items@)),
        JsonValue::Object(fields) => Json::Object(field_views(fields@)),
    }
}

pub open spec fn json_views(items: Seq<JsonValue>) -> Seq<Json>
    decreases items,
{
    if items.len() == 0 {
        Seq::empty()
    } else {
        json_views(items.drop_last()).push(json_view(items.last()))
    }
}

pub open spec fn field_views(fields: Seq<(String, JsonValue)>) -> Seq<(Seq<char>, Json)>
    decreases fields,
{
    if fields.len() == 0 {
        Seq::empty()
    } else {
        field_views(fields.drop_last()).push((fields.last().0@, json_view(fields.last().1)))
    }
}

pub proof fn lemma_json_views(items: Seq<JsonValue>)
    ensures
        json_views(items).len() == items.len(),
        forall|i: int| 0 <= i < items.len() ==> #[trigger] json_views(items)[i] == json_view(items[i]),
    decreases items.len(),
{
    if items.len() > 0 {
        lemma_json_views(items.drop_last());
        assert forall|i: int| 0 <= i < items.len() implies #[trigger] json_views(items)[i] == json_view(items[i]) by {
            if i < items.len() - 1 {
                assert(items.drop_last()[i] == items[i]);
            }
        }
    }
}

pub proof fn lemma_field_views(fields: Seq<(String, JsonValue)>)
    ensures
        field_views(fields).len() == fields.len(),
        forall|i: int| 0 <= i < fields.len() ==> #[trigger] field_views(fields)[i] == (fields[i].0@, json_view(fields[i].1)),
    decreases fields.len(),
{
    if fields.len() > 0 {
        lemma_field_views(fields.drop_last());
        assert forall|i: int| 0 <= i < fields.len() implies #[trigger] field_views(fields)[i] == (fields[i].0@, json_view(fields[i].1)) by {
            if i < fields.len() - 1 {
                assert(fields.drop_last()[i] == fields[i]);
            }
        }
    }
}

/// The first field named `key`, from index `k` on.
pub open spec fn field_index(fields: Seq<(Seq<char>, Json)>, key: Seq<char>, k: int) -> int
    decreases fields.len() - k,
{
    if k < 0 || k >= fields.len() {
        fields.len() as int
    } else if fields[k].0 == key {
        k
    } else {
        field_index(fields, key, k + 1)
    }
}

/// The member `key` of an object (`Value::get`); nothing for other values.
pub open spec fn member(j: Json, key: Seq<char>) -> Option<Json> {
    match j {
        Json::Object(fields) => {
            let k = field_index(fields, key, 0);
            if 0 <= k < fields.len() {
                Some(fields[k].1)
            } else {
                None
            }
        },
        _ => None,
    }
}

pub open spec fn as_text(j: Json) -> Option<Seq<char>> {
    match j {
        Json::Str(s) => Some(s),
        _ => None,
    }
}

pub open spec fn as_unsigned(j: Json) -> Option<u64> {
    match j {
        Json::Unsigned(n) => Some(n),
        _ => None,
    }
}

pub open spec fn as_flag(j: Json) -> Option<bool> {
    match j {
        Json::Bool(b) => Some(b),
        _ => None,
    }
}

/// The text of member `key`, when it is a string.
pub open spec fn text_member(j: Json, key: Seq<char>) -> Option<Seq<char>> {
    match member(j, key) {
        Some(m) => as_text(m),
        None => None,
    }
}

/// The count in member `key`, when it is a non-negative integer.
pub open spec fn count_member(j: Json, key: Seq<char>) -> Option<u64> {
    match member(j, key) {
        Some(m) => as_unsigned(m),
        None => None,
    }
}

/// The flag in member `key`, when it is a boolean.
pub open spec fn flag_member(j: Json, key: Seq<char>) -> Option<bool> {
    match member(j, key) {
        Some(m) => as_flag(m),
        None => None,
    }
}

pub open spec fn opt_json(o: Option<&JsonValue>) -> Option<Json> {
    match o {
        Some(v) => Some(json_view(*v)),
        None => None,
    }
}

/// `serde_json::to_string`: the compact JSON text of a value.
pub uninterp spec fn compact_text(j: Json) -> Seq<char>;

/// The same value as a `serde_json::Value`.
#[verifier::external_body]
fn to_serde(value: &JsonValue) -> Value {
    match value {
        JsonValue::Null => Value::Null,
        JsonValue::Bool(b) => Value::Bool(*b),
        JsonValue::Number(JsonNumber::Unsigned(n)) => Value::from(*n),
        JsonValue::Number(JsonNumber::Signed(n)) => Value::from(*n),
        JsonValue::Number(JsonNumber::Float { text, .. }) => text.parse().map_or(Value::Null, Value::Number),
        JsonValue::String(s) => Value::String(s.clone()),
        JsonValue::Array(items) => Value::Array(items.iter().map(to_serde).collect()),
        JsonValue::Object(fields) => Value::Object(fields.iter().map(|(k, v)| (k.clone(), to_serde(v))).collect()),
    }
}

/// Calls `serde_json::to_string` on the value; an error gives the empty text.
#[verifier::external_body]
pub(crate) fn compact_json(value: &JsonValue) -> (r: String)
    ensures
        r@ == compact_text(json_view(*value)),
{
    serde_json::to_string(&to_serde(value)).unwrap_or_default()
}

/// The line a command is written to Pi as: the UTF-8 bytes of its compact
/// JSON text, then a line feed.
pub fn command_line(command: &JsonValue) -> (r: Vec<u8>)
    ensures
        r@ == vstd::utf8::encode_utf8(compact_text(json_view(*command))).push(10u8),
{
    let text = compact_json(command);
    let bytes = text.as_str().as_bytes();
    let mut out: Vec<u8> = Vec::new();
    let mut i: usize = 0;
    while i < bytes.len()
        invariant
            i <= bytes@.len(),
            out@ == bytes@.take(i as int),
        decreases bytes@.len() - i,
    {
        out.push(bytes[i]);
        i = i + 1;
        proof {
            assert(bytes@.take(i as int) =~= bytes@.take(i - 1).push(bytes@[i - 1]));
        }
    }
    proof {
        assert(bytes@.take(bytes@.len() as int) =~= bytes@);
    }
    out.push(10u8);
    out
}

impl JsonValue {
    /// A copy of the value.
    #[verifier::loop_isolation(false)]
    pub fn copy(&self) -> (r: JsonValue)
        ensures
            json_view(r) == json_view(*self),
        decreases self,
    {
        match self {
            JsonValue::Null => JsonValue::Null,
            JsonValue::Bool(b) => JsonValue::Bool(*b),
            JsonValue::Number(JsonNumber::Unsigned(n)) => JsonValue::Number(JsonNumber::Unsigned(*n)),
            JsonValue::Number(JsonNumber::Signed(n)) => JsonValue::Number(JsonNumber::Signed(*n)),
            JsonValue::Number(JsonNumber::Float { text, millionths, percent }) => JsonValue::Number(
                JsonNumber::Float { text: text.clone(), millionths: *millionths, percent: *percent },
            ),
            JsonValue::String(s) => JsonValue::String(s.clone()),
            JsonValue::Array(items) => {
                let mut out: Vec<JsonValue> = Vec::new();
                let mut k: usize = 0;
                proof {
                    lemma_json_views(items@);
                }
                while k < items.len()
                    invariant
                        k <= items@.len(),
                        out@.len() == k,
                        forall|i: int| 0 <= i < k ==> json_view(#[trigger] out@[i]) == json_view(items@[i]),
                    decreases items@.len() - k,
                {
                    proof {
                        assert(decreases_to!(*self => *items));
                        assert(decreases_to!(*items => items@));
                        assert(decreases_to!(items@ => items@[k as int]));
                    }
                    let c = items[k].copy();
                    out.push(c);
                    k = k + 1;
                }
                proof {
                    lemma_json_views(out@);
                    assert(json_views(out@) =~= json_views(items@));
                }
                JsonValue::Array(out)
            },
            JsonValue::Object(fields) => {
                let mut out: Vec<(String, JsonValue)> = Vec::new();
                let mut k: usize = 0;
                proof {
                    lemma_field_views(fields@);
                }
                while k < fields.len()
                    invariant
                        k <= fields@.len(),
                        out@.len() == k,
                        forall|i: int|
                            0 <= i < k ==> (#[trigger] out@[i]).0@ == fields@[i].0@ && json_view(out@[i].1)
                                == json_view(fields@[i].1),
                    decreases fields@.len() - k,
                {
                    proof {
                        assert(decreases_to!(*self => *fields));
                        assert(decreases_to!(*fields => fields@));
                        assert(decreases_to!(fields@ => fields@[k as int]));
                        assert(decreases_to!(fields@[k as int] => fields@[k as int].1));
                    }
                    let c = fields[k].1.copy();
                    out.push((fields[k].0.clone(), c));
                    k = k + 1;
                }
                proof {
                    lemma_field_views(out@);
                    assert(field_views(out@) =~= field_views(fields@));
                }
                JsonValue::Object(out)
            },
        }
    }

    /// The member `key` of an object (`Value::get`).
    #[verifier::loop_isolation(false)]
    pub fn get(&self, key: &str) -> (r: Option<&JsonValue>)
        ensures
            opt_json(r) == member(json_view(*self), key@),
    {
        match self {
            JsonValue::Object(fields) => {
                proof {
                    lemma_field_views(fields@);
                }
                let ghost fv = field_views(fields@);
                let wanted = key.to_owned();
                let mut k: usize = 0;
                while k < fields.len()
                    invariant
                        k <= fields@.len(),
                        fv == field_views(fields@),
                        fv.len() == fields@.len(),
                        forall|i: int| 0 <= i < fields@.len() ==> #[trigger] fv[i] == (fields@[i].0@, json_view(fields@[i].1)),
                        field_index(fv, key@, 0) == field_index(fv, key@, k as int),
                        wanted@ == key@,
                    decreases fields@.len() - k,
                {
                    if fields[k].0 == wanted {
                        return Some(&fields[k].1);
                    }
                    k = k + 1;
                }
                None
            },
            _ => None,
        }
    }

    pub fn as_str(&self) -> (r: Option<&String>)
        ensures
            match r {
                Some(s) => as_text(json_view(*self)) == Some(s@),
                None => as_text(json_view(*self)) is None,
            },
    {
        match self {
            JsonValue::String(s) => Some(s),
            _ => None,
        }
    }

    pub fn as_u64(&self) -> (r: Option<u64>)
        ensures
            r == as_unsigned(json_view(*self)),
    {
        match self {
            JsonValue::Number(JsonNumber::Unsigned(n)) => Some(*n),
            _ => None,
        }
    }

    pub fn as_bool(&self) -> (r: Option<bool>)
        ensures
            r == as_flag(json_view(*self)),
    {
        match self {
            JsonValue::Bool(b) => Some(*b),
            _ => None,
        }
    }

    pub fn as_array(&self) -> (r: Option<&Vec<JsonValue>>)
        ensures
            match r {
                Some(items) => json_view(*self) == Json::Array(json_views(items@)),
                None => !(json_view(*self) is Array),
            },
    {
        match self {
            JsonValue::Array(items) => Some(items),
            _ => None,
        }
    }

    pub fn is_null(&self) -> (r: bool)
        ensures
            r == (json_view(*self) is Null),
    {
        match self {
            JsonValue::Null => true,
            _ => false,
        }
    }
}

/// The text of member `key`, when it is a string (`string_field`).
pub fn string_field(value: &JsonValue, key: &str) -> (r: Option<String>)
    ensures
        opt_view(r) == text_member(json_view(*value), key@),
{
    match value.get(key) {
        Some(m) => match m.as_str() {
            Some(s) => Some(s.clone()),
            None => None,
        },
        None => None,
    }
}

/// The count in member `key`, or zero (`u64_field`).
pub fn u64_field(value: &JsonValue, key: &str) -> (r: u64)
    ensures
        r == match count_member(json_view(*value), key@) {
            Some(n) => n,
            None => 0,
        },
{
    match value.get(key) {
        Some(m) => match m.as_u64() {
            Some(n) => n,
            None => 0,
        },
        None => 0,
    }
}

/// The flag in member `key`, if it is a boolean.
pub fn bool_field(value: &JsonValue, key: &str) -> (r: Option<bool>)
    ensures
        r == flag_member(json_view(*value), key@),
{
    match value.get(key) {
        Some(m) => m.as_bool(),
        None => None,
    }
}

} // verus!
