//! JSON texts as plain data.
//!
//! The asset files of the sign are JSON. Reading a text as JSON is the work
//! of `serde_json`; what comes back is copied into a type of this crate, so
//! that everything that is made of it can be reasoned about.

use vstd::prelude::*;
use vstd::string::*;

verus! {

/// A JSON number as far as it is a whole number: its value as an unsigned
/// and as a signed 64-bit number, each where it is one.
#[derive(Clone, Copy, Debug, PartialEq, Eq, Structural)]
pub struct JsonNumber {
    pub unsigned: Option<u64>,
    pub signed: Option<i64>,
}

/// A JSON value.
#[derive(Debug)]
pub enum Json {
    Null,
    Bool(bool),
    Number(JsonNumber),
    Text(String),
    Array(Vec<Json>),
    Object(Vec<JsonMember>),
}

/// A member of a JSON object.
#[derive(Debug)]
pub struct JsonMember {
    pub name: String,
    pub value: Json,
}

/// The mathematical value of a [`Json`].
pub enum JsonView {
    Null,
    Bool(bool),
    Number(JsonNumber),
    Text(Seq<char>),
    Array(Seq<JsonView>),
    Object(Seq<(Seq<char>, JsonView)>),
}

/// The mathematical value of a JSON value.
pub open spec fn json_view(value: Json) -> JsonView
    decreases value,
{
    match value {
        Json::Null => JsonView::Null,
        Json::Bool(b) => JsonView::Bool(b),
        Json::Number(n) => JsonView::Number(n),
        Json::Text(s) => JsonView::Text(s@),
        Json::Array(items) => JsonView::Array(
            Seq::new(
                items@.len(),
                |i: int|
                    if 0 <= i < items@.len() {
                        json_view(items@[i])
                    } else {
                        JsonView::Null
                    },
            ),
        ),
        Json::Object(members) => JsonView::Object(
            Seq::new(
                members@.len(),
                |i: int|
                    if 0 <= i < members@.len() {
                        (members@[i].name@, json_view(members@[i].value))
                    } else {
                        (Seq::empty(), JsonView::Null)
                    },
            ),
        ),
    }
}

impl View for Json {
    type V = JsonView;

    open spec fn view(&self) -> JsonView {
        json_view(*self)
    }
}

/// The values of a list, as values.
pub open spec fn items_view(items: Seq<Json>) -> Seq<JsonView> {
    Seq::new(items.len(), |i: int| items[i]@)
}

/// The members of a list, as values.
pub open spec fn members_view(members: Seq<JsonMember>) -> Seq<(Seq<char>, JsonView)> {
    Seq::new(members.len(), |i: int| (members[i].name@, members[i].value@))
}

/// The value of an array is the list of the values of its items.
pub proof fn lemma_array_view(items: Vec<Json>)
    ensures
        Json::Array(items)@ == JsonView::Array(items_view(items@)),
{
    assert(Json::Array(items)@->Array_0 =~= items_view(items@));
}

/// The value of an object is the list of its members' names and values.
pub proof fn lemma_object_view(members: Vec<JsonMember>)
    ensures
        Json::Object(members)@ == JsonView::Object(members_view(members@)),
{
    assert(Json::Object(members)@->Object_0 =~= members_view(members@));
}

/// `serde_json::Value`, a parsed JSON value. Nothing is known of what it
/// holds.
#[verifier::external_type_specification]
#[verifier::external_body]
pub struct ExJsonValue(serde_json::Value);

/// What `serde_json` reads a text as: the value that the text denotes, or
/// `None` for a text that is no JSON. The members of an object come in the
/// order in which `serde_json` keeps them, each name once.
pub uninterp spec fn json_value_spec(text: Seq<char>) -> Option<JsonView>;

/// Copies a `serde_json::Value` variant by variant. A number is copied as
/// what `Number::as_u64` and `Number::as_i64` give for it. Nothing is
/// claimed of the result.
#[verifier::external_body]
fn copy_value(value: &serde_json::Value) -> Json {
    match value {
        serde_json::Value::Null => Json::Null,
        serde_json::Value::Bool(b) => Json::Bool(*b),
        serde_json::Value::Number(n) => Json::Number(
            JsonNumber { unsigned: n.as_u64(), signed: n.as_i64() },
        ),
        serde_json::Value::String(s) => Json::Text(s.clone()),
        serde_json::Value::Array(items) => Json::Array(items.iter().map(copy_value).collect()),
        serde_json::Value::Object(members) => Json::Object(
            members.iter().map(|(k, v)| JsonMember { name: k.clone(), value: copy_value(v) }).collect(),
        ),
    }
}

/// Runs `serde_json::from_str` on the text, for a `serde_json::Value`, and
/// copies the value out. The contract only names the result: it is what
/// `serde_json` reads the text as.
#[verifier::external_body]
fn read_json(text: &str) -> (r: Option<Json>)
    ensures
        match r {
            Some(value) => json_value_spec(text@) == Some(value@),
            None => json_value_spec(text@) is None,
        },
{
    match serde_json::from_str::<serde_json::Value>(text) {
        Ok(value) => Some(copy_value(&value)),
        Err(_) => None,
    }
}

impl Json {
    /// Reads a text as JSON.
    pub fn parse(text: &str) -> (r: Option<Json>)
        ensures
            match r {
                Some(value) => json_value_spec(text@) == Some(value@),
                None => json_value_spec(text@) is None,
            },
    {
        read_json(text)
    }
}

} // verus!
