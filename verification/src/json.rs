//! JSON documents as the resolver reads them.
use vstd::prelude::*;

use crate::text;

verus! {

/// A JSON value. Of a number only the value of an unsigned integer is kept, which is all that is
/// ever read of one.
pub enum Json {
    Null,
    Bool(bool),
    Number(Option<u64>),
    Text(String),
    Array(Vec<Json>),
    Object(Vec<(String, Json)>),
}

/// What a [`Json`] says.
#[verifier::ext_equal]
pub enum JsonView {
    Null,
    Bool(bool),
    Number(Option<u64>),
    Text(Seq<char>),
    Array(Seq<JsonView>),
    Object(Seq<(Seq<char>, JsonView)>),
}

/// What a value says.
pub open spec fn json_view(value: Json) -> JsonView
    decreases value,
{
    match value {
        Json::Null => JsonView::Null,
        Json::Bool(b) => JsonView::Bool(b),
        Json::Number(n) => JsonView::Number(n),
        Json::Text(s) => JsonView::Text(s@),
        Json::Array(items) => JsonView::Array(
            Seq::new(
                items@.len(),
                |i: int|
                    if 0 <= i < items@.len() {
                        json_view(items@[i])
                    } else {
                        JsonView::Null
                    },
            ),
        ),
        Json::Object(entries) => JsonView::Object(
            Seq::new(
                entries@.len(),
                |i: int|
                    if 0 <= i < entries@.len() {
                        (entries@[i].0@, json_view(entries@[i].1))
                    } else {
                        (Seq::empty(), JsonView::Null)
                    },
            ),
        ),
    }
}

impl View for Json {
    type V = JsonView;

    open spec fn view(&self) -> JsonView {
        json_view(*self)
    }
}

/// What `serde_json::from_slice` makes of the bytes: the document, or the text of the error.
pub uninterp spec fn json_document(bytes: Seq<u8>) -> Result<JsonView, Seq<char>>;

/// The parsed document of `serde_json`.
#[verifier::external_type_specification]
#[verifier::external_body]
pub struct ExValue(serde_json::Value);

/// The document as a [`Json`], node by node: `serde_json::Value` has the same six variants, and a
/// number is kept by what `serde_json::Number::as_u64` says of it.
#[verifier::external_body]
fn json_of_value(value: serde_json::Value) -> (r: Json)
{
    match value {
        serde_json::Value::Null => Json::Null,
        serde_json::Value::Bool(b) => Json::Bool(b),
        serde_json::Value::Number(n) => Json::Number(n.as_u64()),
        serde_json::Value::String(s) => Json::Text(s),
        serde_json::Value::Array(v) => Json::Array(v.into_iter().map(json_of_value).collect()),
        serde_json::Value::Object(m) => Json::Object(
            m.into_iter().map(|(k, v)| (k, json_of_value(v))).collect(),
        ),
    }
}

/// `serde_json::from_slice::<serde_json::Value>`: parses a JSON document. What it returns is a
/// function of the bytes alone, named by `json_document`; which bytes are a document, and which
/// one, is not stated.
#[verifier::external_body]
pub(crate) fn read_document(bytes: &[u8]) -> (r: Result<Json, String>)
    ensures
        match r {
            Ok(value) => json_document(bytes@) == Ok::<JsonView, Seq<char>>(value@),
            Err(message) => json_document(bytes@) == Err::<JsonView, Seq<char>>(message@),
        },
{
    serde_json::from_slice(bytes).map(json_of_value).map_err(|error| error.to_string())
}

// ---------------------------------------------------------------------------
// Reading documents
// ---------------------------------------------------------------------------

/// The members of an object; none of any other value.
pub open spec fn members(value: JsonView) -> Seq<(Seq<char>, JsonView)> {
    match value {
        JsonView::Object(entries) => entries,
        _ => Seq::empty(),
    }
}

/// The first of these members that is called `key`.
pub open spec fn first_called(
    entries: Seq<(Seq<char>, JsonView)>,
    key: Seq<char>,
) -> Option<JsonView>
    decreases entries.len(),
{
    if entries.len() == 0 {
        None
    } else if entries[0].0 == key {
        Some(entries[0].1)
    } else {
        first_called(entries.skip(1), key)
    }
}

/// The member of `value` called `key`.
pub open spec fn member(value: JsonView, key: Seq<char>) -> Option<JsonView> {
    first_called(members(value), key)
}

/// The member called `key`, or else the one called `other`.
pub open spec fn either(value: JsonView, key: Seq<char>, other: Seq<char>) -> Option<JsonView> {
    match member(value, key) {
        Some(found) => Some(found),
        None => member(value, other),
    }
}

/// What a value says as a string.
pub open spec fn text_in(value: Option<JsonView>) -> Option<Seq<char>> {
    match value {
        Some(JsonView::Text(s)) => Some(s),
        _ => None,
    }
}

/// What a value says as an unsigned integer.
pub open spec fn number_in(value: Option<JsonView>) -> Option<u64> {
    match value {
        Some(JsonView::Number(n)) => n,
        _ => None,
    }
}

/// The items of an array; `None` of any other value.
pub open spec fn items_in(value: Option<JsonView>) -> Option<Seq<JsonView>> {
    match value {
        Some(JsonView::Array(items)) => Some(items),
        _ => None,
    }
}

/// The names of the members of an object; none of any other value.
pub open spec fn names_in(value: Option<JsonView>) -> Seq<Seq<char>> {
    match value {
        Some(object) => Seq::new(members(object).len(), |i: int| members(object)[i].0),
        None => Seq::empty(),
    }
}

/// What each value says.
pub open spec fn values_view(values: Seq<Json>) -> Seq<JsonView> {
    Seq::new(values.len(), |i: int| values[i]@)
}

/// What a value that may be absent says.
pub open spec fn value_opt(value: Option<&Json>) -> Option<JsonView> {
    match value {
        Some(v) => Some(v@),
        None => None,
    }
}

impl Json {
    /// The member called `key`, where this is an object that has one.
    pub fn get(&self, key: &str) -> (r: Option<&Json>)
        ensures
            value_opt(r) == member(self@, key@),
    {
        match self {
            Json::Object(entries) => {
                let ghost all = members(self@);
                let mut i: usize = 0;
                assert(all.skip(0) =~= all);
                while i < entries.len()
                    invariant
                        i <= entries.len(),
                        all.len() == entries.len(),
                        forall|j: int|
                            0 <= j < entries.len() ==> #[trigger] all[j] == (
                                entries@[j].0@,
                                entries@[j].1@,
                            ),
                        member(self@, key@) == first_called(all.skip(i as int), key@),
                    decreases entries.len() - i,
                {
                    assert(all.skip(i as int)[0] == all[i as int]);
                    assert(all.skip(i as int).skip(1) =~= all.skip(i + 1));
                    if text::same(entries[i].0.as_str(), key) {
                        return Some(&entries[i].1);
                    }
                    i = i + 1;
                }
                None
            },
            _ => None,
        }
    }

    /// The member called `key`, or else the one called `other`.
    pub fn get_either(&self, key: &str, other: &str) -> (r: Option<&Json>)
        ensures
            value_opt(r) == either(self@, key@, other@),
    {
        match self.get(key) {
            Some(value) => Some(value),
            None => self.get(other),
        }
    }

    /// Whether this is an object.
    pub fn is_object(&self) -> (r: bool)
        ensures
            r == (self@ is Object),
    {
        match self {
            Json::Object(_) => true,
            _ => false,
        }
    }
}

/// The string that a value is.
pub fn as_text(value: Option<&Json>) -> (r: Option<String>)
    ensures
        text::text_opt(r) == text_in(value_opt(value)),
{
    match value {
        Some(Json::Text(s)) => Some(s.clone()),
        _ => None,
    }
}

/// The unsigned integer that a value is.
pub fn as_number(value: Option<&Json>) -> (r: Option<u64>)
    ensures
        r == number_in(value_opt(value)),
{
    match value {
        Some(Json::Number(n)) => *n,
        _ => None,
    }
}

/// The items of the array that a value is.
pub fn as_items(value: Option<&Json>) -> (r: Option<&Vec<Json>>)
    ensures
        match r {
            Some(items) => items_in(value_opt(value)) == Some(values_view(items@)),
            None => items_in(value_opt(value)) is None,
        },
{
    match value {
        Some(Json::Array(items)) => {
            assert(items_in(value_opt(value))->0 =~= values_view(items@));
            Some(items)
        },
        _ => None,
    }
}

/// The names of the members of the object that a value is.
pub fn as_names(value: Option<&Json>) -> (r: Vec<String>)
    ensures
        text::texts(r@) == names_in(value_opt(value)),
{
    let mut out: Vec<String> = Vec::new();
    if let Some(Json::Object(entries)) = value {
        let mut i: usize = 0;
        while i < entries.len()
            invariant
                i <= entries.len(),
                out.len() == i,
                forall|j: int| 0 <= j < i ==> (#[trigger] out@[j])@ == entries@[j].0@,
            decreases entries.len() - i,
        {
            out.push(entries[i].0.clone());
            i = i + 1;
        }
    }
    assert(text::texts(out@) =~= names_in(value_opt(value)));
    out
}

}
