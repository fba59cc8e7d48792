//! JSON values, as the transcript rows carry them.
use vstd::prelude::*;

use crate::text::same;

verus! {

/// A JSON value.
#[derive(Debug)]
pub enum Json {
    Null,
    Bool(bool),
    /// A number, as it is written.
    Number(String),
    Text(String),
    Array(Vec<Json>),
    /// The keys with their values; no key stands twice in what was parsed.
    Object(Vec<(String, Json)>),
}

/// What a [`Json`] holds.
pub enum JsonValue {
    Null,
    Bool(bool),
    Number(Seq<char>),
    Text(Seq<char>),
    Array(Seq<JsonValue>),
    Object(Seq<(Seq<char>, JsonValue)>),
}

/// The value of the first field with the given key.
pub open spec fn field_of(fields: Seq<(Seq<char>, JsonValue)>, key: Seq<char>) -> Option<JsonValue>
    decreases fields.len(),
{
    if fields.len() == 0 {
        None
    } else if fields[0].0 == key {
        Some(fields[0].1)
    } else {
        field_of(fields.skip(1), key)
    }
}

impl JsonValue {
    /// The value under a key; there is none in anything but an object.
    pub open spec fn at(self, key: Seq<char>) -> Option<JsonValue> {
        match self {
            JsonValue::Object(fields) => field_of(fields, key),
            _ => None,
        }
    }

    /// The text under a key; there is none in any value but a string.
    pub open spec fn text_at(self, key: Seq<char>) -> Option<Seq<char>> {
        match self.at(key) {
            Some(JsonValue::Text(s)) => Some(s),
            _ => None,
        }
    }

    /// The items under a key; there are none in any value but an array.
    pub open spec fn items_at(self, key: Seq<char>) -> Option<Seq<JsonValue>> {
        match self.at(key) {
            Some(JsonValue::Array(items)) => Some(items),
            _ => None,
        }
    }
}

/// What a list of values holds.
pub open spec fn values(items: Seq<Json>) -> Seq<JsonValue> {
    items.map_values(|item: Json| item@)
}

impl View for Json {
    type V = JsonValue;

    open spec fn view(&self) -> JsonValue {
        self.model()
    }
}

impl Json {
    /// What the value holds.
    pub open spec fn model(self) -> JsonValue
        decreases self,
    {
        match self {
            Json::Null => JsonValue::Null,
            Json::Bool(flag) => JsonValue::Bool(flag),
            Json::Number(number) => JsonValue::Number(number@),
            Json::Text(text) => JsonValue::Text(text@),
            Json::Array(items) => JsonValue::Array(
                Seq::new(
                    items@.len(),
                    |i: int|
                        if 0 <= i < items@.len() {
                            items@[i].model()
                        } else {
                            JsonValue::Null
                        },
                ),
            ),
            Json::Object(fields) => JsonValue::Object(
                Seq::new(
                    fields@.len(),
                    |i: int|
                        if 0 <= i < fields@.len() {
                            (fields@[i].0@, fields@[i].1.model())
                        } else {
                            (Seq::empty(), JsonValue::Null)
                        },
                ),
            ),
        }
    }

    /// The value under a key.
    pub fn get(&self, key: &str) -> (r: Option<&Json>)
        ensures
            self@.at(key@) == (match r {
                Some(value) => Some(value@),
                None => None,
            }),
    {
        match self {
            Json::Object(fields) => {
                let ghost all = self@->Object_0;
                let mut i: usize = 0;
                assert(all.skip(0) =~= all);
                while i < fields.len()
                    invariant
                        i <= fields.len(),
                        self@ == JsonValue::Object(all),
                        self == Json::Object(*fields),
                        all.len() == fields@.len(),
                        field_of(all, key@) == field_of(all.skip(i as int), key@),
                    decreases fields.len() - i,
                {
                    assert(all[i as int] == (fields@[i as int].0@, fields@[i as int].1@));
                    assert(all.skip(i as int)[0] == all[i as int]);
                    if same(fields[i].0.as_str(), key) {
                        return Some(&fields[i].1);
                    }
                    assert(all.skip(i as int).skip(1) =~= all.skip(i + 1));
                    i += 1;
                }
                None
            },
            _ => None,
        }
    }

    /// The text under a key.
    pub fn get_text(&self, key: &str) -> (r: Option<&str>)
        ensures
            self@.text_at(key@) == (match r {
                Some(text) => Some(text@),
                None => None,
            }),
    {
        match self.get(key) {
            Some(Json::Text(text)) => Some(text.as_str()),
            _ => None,
        }
    }

    /// The items under a key.
    pub fn get_items(&self, key: &str) -> (r: Option<&Vec<Json>>)
        ensures
            self@.items_at(key@) == (match r {
                Some(items) => Some(values(items@)),
                None => None,
            }),
    {
        match self.get(key) {
            Some(Json::Array(items)) => {
                assert(Json::Array(*items)@->Array_0 =~= values(items@));
                Some(items)
            },
            _ => None,
        }
    }
}

/// A JSON value of `serde_json`: a tree of values under keys and in lists.
#[verifier::external_type_specification]
#[verifier::external_body]
pub struct ExValue(serde_json::Value);

/// What a `serde_json::Value` holds, all the way down.
pub uninterp spec fn json_contents(value: serde_json::Value) -> JsonValue;

/// What `serde_json::from_slice` makes of some bytes: the JSON value that they
/// spell, or nothing where they spell none.
pub uninterp spec fn json_value(bytes: Seq<u8>) -> Option<JsonValue>;

/// Calls `serde_json::from_slice` for a `serde_json::Value`. The contract claims
/// that the outcome depends on the bytes alone, and names it [`json_value`].
#[verifier::external_body]
fn from_slice(bytes: &[u8]) -> (r: Option<serde_json::Value>)
    ensures
        json_value(bytes@) == (match r {
            Some(value) => Some(json_contents(value)),
            None => None,
        }),
{
    serde_json::from_slice(bytes).ok()
}

/// Moves what a `serde_json::Value` holds into a [`Json`], variant by variant,
/// with a number in the text that `serde_json` writes for it. The contract names
/// what the value holds [`json_contents`], and claims that the [`Json`] holds
/// the same.
#[verifier::external_body]
fn json_of(value: serde_json::Value) -> (r: Json)
    ensures
        r@ == json_contents(value),
{
    match value {
        serde_json::Value::Null => Json::Null,
        serde_json::Value::Bool(flag) => Json::Bool(flag),
        serde_json::Value::Number(number) => Json::Number(number.to_string()),
        serde_json::Value::String(text) => Json::Text(text),
        serde_json::Value::Array(items) => Json::Array(items.into_iter().map(json_of).collect()),
        serde_json::Value::Object(fields) => Json::Object(
            fields.into_iter().map(|(key, value)| (key, json_of(value))).collect(),
        ),
    }
}

/// The JSON value that some bytes spell.
pub fn parse_json(bytes: &[u8]) -> (r: Option<Json>)
    ensures
        json_value(bytes@) == (match r {
            Some(json) => Some(json@),
            None => None,
        }),
{
    match from_slice(bytes) {
        Some(value) => Some(json_of(value)),
        None => None,
    }
}

// ---------------------------------------------------------------------------
// Laws

/// What stands under a key of an object is the value of the first field with
/// that key, and there is nothing only where no field has it.
pub proof fn law_a_field_is_the_first_with_its_key(
    fields: Seq<(Seq<char>, JsonValue)>,
    key: Seq<char>,
)
    ensures
        match JsonValue::Object(fields).at(key) {
            Some(value) => exists|i: int|
                0 <= i < fields.len() && #[trigger] fields[i] == (key, value) && forall|j: int|
                    0 <= j < i ==> (#[trigger] fields[j]).0 != key,
            None => forall|j: int| 0 <= j < fields.len() ==> (#[trigger] fields[j]).0 != key,
        },
    decreases fields.len(),
{
    if fields.len() > 0 {
        if fields[0].0 == key {
            assert(fields[0] == (key, fields[0].1));
        } else {
            let rest = fields.skip(1);
            law_a_field_is_the_first_with_its_key(rest, key);
            assert(JsonValue::Object(fields).at(key) == JsonValue::Object(rest).at(key));
            match JsonValue::Object(rest).at(key) {
                Some(value) => {
                    let i = choose|i: int|
                        0 <= i < rest.len() && #[trigger] rest[i] == (key, value) && forall|j: int|
                            0 <= j < i ==> (#[trigger] rest[j]).0 != key;
                    assert(fields[i + 1] == (key, value));
                    assert forall|j: int| 0 <= j < i + 1 implies (#[trigger] fields[j]).0 != key by {
                        if j > 0 {
                            assert(rest[j - 1] == fields[j]);
                        }
                    }
                },
                None => {
                    assert forall|j: int| 0 <= j < fields.len() implies (#[trigger] fields[j]).0
                        != key by {
                        if j > 0 {
                            assert(rest[j - 1] == fields[j]);
                        }
                    }
                },
            }
        }
    }
}

/// Nothing but an object has anything under a key; a text is read only from a
/// string and a list only from an array.
pub proof fn law_what_is_read_under_a_key(
    value: JsonValue,
    key: Seq<char>,
    text: Seq<char>,
    items: Seq<JsonValue>,
)
    ensures
        !(value is Object) ==> value.at(key) is None,
        value.text_at(key) == Some(text) <==> value.at(key) == Some(JsonValue::Text(text)),
        value.items_at(key) == Some(items) <==> value.at(key) == Some(JsonValue::Array(items)),
{
}

/// A value holds what its parts hold.
pub proof fn law_what_a_value_holds(text: String, items: Vec<Json>, fields: Vec<(String, Json)>)
    ensures
        Json::Text(text)@ == JsonValue::Text(text@),
        Json::Array(items)@ matches JsonValue::Array(held) && held.len() == items@.len() && forall|
            i: int,
        |
            0 <= i < held.len() ==> #[trigger] held[i] == items@[i]@,
        Json::Object(fields)@ matches JsonValue::Object(held) && held.len() == fields@.len()
            && forall|i: int|
            0 <= i < held.len() ==> #[trigger] held[i] == (fields@[i].0@, fields@[i].1@),
{
}

} // verus!
