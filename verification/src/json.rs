//! JSON documents.
//!
//! Frames are read and written by `serde_json`. A document that it has read
//! is handed on as a [`Json`], a plain tree of the library's own; a document
//! to send is built as a [`Json`] and handed to `serde_json` for printing.

use crate::text::text_eq;
use crate::text_map::position_of;
use vstd::prelude::*;

verus! {

/// `serde_json::Value`, taken as it is: a value is turned into a [`Json`]
/// and never looked into here.
#[verifier::external_type_specification]
#[verifier::external_body]
pub struct ExJsonValue(serde_json::Value);

/// A JSON document.
#[derive(Debug)]
pub enum Json {
    Null,
    Bool(bool),
    /// A number; it holds the value where that is a whole number within the
    /// range of `i64`.
    Number(Option<i64>),
    Text(String),
    Array(Vec<Json>),
    /// An object: its members, each key once.
    Object(Vec<(String, Json)>),
}

/// The document that `serde_json` reads from a text, `None` where the text is
/// no JSON document.
pub uninterp spec fn json_document(text: Seq<char>) -> Option<Json>;

/// What a JSON document holds.
pub enum JsonView {
    Null,
    Bool(bool),
    Number(Option<i64>),
    Text(Seq<char>),
    Array(Seq<JsonView>),
    Object(Seq<(Seq<char>, JsonView)>),
}

/// What a document holds, all the way down.
pub open spec fn json_view(doc: Json) -> JsonView
    decreases doc,
{
    match doc {
        Json::Null => JsonView::Null,
        Json::Bool(b) => JsonView::Bool(b),
        Json::Number(n) => JsonView::Number(n),
        Json::Text(s) => JsonView::Text(s@),
        Json::Array(items) => JsonView::Array(
            Seq::new(
                items@.len(),
                |i: int|
                    if 0 <= i < items@.len() {
                        json_view(items@[i])
                    } else {
                        JsonView::Null
                    },
            ),
        ),
        Json::Object(members) => JsonView::Object(
            Seq::new(
                members@.len(),
                |i: int|
                    if 0 <= i < members@.len() {
                        (members@[i].0@, json_view(members@[i].1))
                    } else {
                        (Seq::empty(), JsonView::Null)
                    },
            ),
        ),
    }
}

impl View for Json {
    type V = JsonView;

    open spec fn view(&self) -> JsonView {
        json_view(*self)
    }
}

/// The text that `serde_json` prints for a document: compact, the members of
/// an object in the order of their keys.
pub uninterp spec fn json_printed(doc: JsonView) -> Seq<char>;

/// Turns a `serde_json::Value` into a [`Json`], variant by variant. Nothing
/// is claimed of the result: the value it is made from cannot be looked into
/// here.
#[verifier::external_body]
fn json_from_value(value: &serde_json::Value) -> (r: Json) {
    match value {
        serde_json::Value::Null => Json::Null,
        serde_json::Value::Bool(b) => Json::Bool(*b),
        serde_json::Value::Number(n) => Json::Number(n.as_i64()),
        serde_json::Value::String(s) => Json::Text(s.clone()),
        serde_json::Value::Array(a) => Json::Array(a.iter().map(json_from_value).collect()),
        serde_json::Value::Object(o) => Json::Object(
            o.iter().map(|(k, v)| (k.clone(), json_from_value(v))).collect(),
        ),
    }
}

/// `serde_json::from_str` into a `serde_json::Value`. The contract names the
/// document and claims only that it is the same for the same text.
#[verifier::external_body]
fn outside_parse_json(text: &str) -> (r: Option<Json>)
    ensures
        r == json_document(text@),
{
    match serde_json::from_str::<serde_json::Value>(text) {
        Ok(value) => Some(json_from_value(&value)),
        Err(_) => None,
    }
}

/// Turns a [`Json`] into a `serde_json::Value`, variant by variant; a number
/// without a value becomes `null`. Nothing is claimed of the result: the
/// value cannot be looked into here.
#[verifier::external_body]
fn json_to_value(doc: &Json) -> (r: serde_json::Value) {
    match doc {
        Json::Null => serde_json::Value::Null,
        Json::Bool(b) => serde_json::Value::Bool(*b),
        Json::Number(Some(n)) => serde_json::Value::from(*n),
        Json::Number(None) => serde_json::Value::Null,
        Json::Text(s) => serde_json::Value::String(s.clone()),
        Json::Array(a) => serde_json::Value::Array(a.iter().map(json_to_value).collect()),
        Json::Object(o) => serde_json::Value::Object(
            o.iter().map(|(k, v)| (k.clone(), json_to_value(v))).collect(),
        ),
    }
}

/// The `Display` of a `serde_json::Value`, through `to_string`. The contract
/// names the text and claims only that it is the same for documents that
/// hold the same.
#[verifier::external_body]
fn outside_print_json(doc: &Json) -> (r: String)
    ensures
        r@ == json_printed(doc@),
{
    json_to_value(doc).to_string()
}

/// The keys of the members of an object.
pub open spec fn member_keys(members: Seq<(String, Json)>) -> Seq<Seq<char>> {
    members.map_values(|m: (String, Json)| m.0@)
}

/// The member of an object under a key; `None` where the document is no
/// object or has no such member.
pub open spec fn json_member(doc: Json, key: Seq<char>) -> Option<Json> {
    match doc {
        Json::Object(members) => match position_of(member_keys(members@), key) {
            Some(i) => Some(members@[i].1),
            None => None,
        },
        _ => None,
    }
}

/// The text of a document that is a string.
pub open spec fn json_text(doc: Json) -> Option<Seq<char>> {
    match doc {
        Json::Text(s) => Some(s@),
        _ => None,
    }
}

/// The value of a document that is a whole number within the range of
/// `i64`.
pub open spec fn json_i64(doc: Json) -> Option<i64> {
    match doc {
        Json::Number(n) => n,
        _ => None,
    }
}

/// The items of a document that is an array.
pub open spec fn json_items(doc: Json) -> Option<Seq<Json>> {
    match doc {
        Json::Array(items) => Some(items@),
        _ => None,
    }
}

/// The text of the member under a key, where there is such a member and it
/// is a string.
pub open spec fn json_text_member(doc: Json, key: Seq<char>) -> Option<Seq<char>> {
    match json_member(doc, key) {
        Some(m) => json_text(m),
        None => None,
    }
}

/// The value of the member under a key, where there is such a member and it
/// is a whole number within the range of `i64`.
pub open spec fn json_i64_member(doc: Json, key: Seq<char>) -> Option<i64> {
    match json_member(doc, key) {
        Some(m) => json_i64(m),
        None => None,
    }
}

/// The items of the member under a key, where there is such a member and it
/// is an array.
pub open spec fn json_items_member(doc: Json, key: Seq<char>) -> Option<Seq<Json>> {
    match json_member(doc, key) {
        Some(m) => json_items(m),
        None => None,
    }
}

impl Json {
    /// Reads a document from a text.
    pub fn parse(text: &str) -> (r: Option<Json>)
        ensures
            r == json_document(text@),
    {
        outside_parse_json(text)
    }

    /// The member of an object under a key.
    pub fn member(&self, key: &str) -> (r: Option<&Json>)
        ensures
            match r {
                Some(m) => json_member(*self, key@) == Some(*m),
                None => json_member(*self, key@) is None,
            },
    {
        match self {
            Json::Object(members) => {
                let ghost keys = member_keys(members@);
                let mut i: usize = 0;
                proof {
                    assert(keys.take(0) =~= Seq::<Seq<char>>::empty());
                }
                while i < members.len()
                    invariant
                        i <= members@.len(),
                        *self == Json::Object(*members),
                        keys == member_keys(members@),
                        position_of(keys.take(i as int), key@) is None,
                    decreases members@.len() - i,
                {
                    proof {
                        assert(keys.take(i + 1).drop_last() =~= keys.take(i as int));
                        assert(keys.take(i + 1).last() == members@[i as int].0@);
                    }
                    if text_eq(members[i].0.as_str(), key) {
                        proof {
                            lemma_position_extends(keys, key@, i as int);
                        }
                        return Some(&members[i].1);
                    }
                    i = i + 1;
                }
                proof {
                    assert(keys.take(i as int) =~= keys);
                }
                None
            },
            _ => None,
        }
    }

    /// The text of a string.
    pub fn as_text(&self) -> (r: Option<&String>)
        ensures
            match r {
                Some(s) => json_text(*self) == Some(s@),
                None => json_text(*self) is None,
            },
    {
        match self {
            Json::Text(s) => Some(s),
            _ => None,
        }
    }

    /// The value of a whole number within the range of `i64`.
    pub fn as_i64(&self) -> (r: Option<i64>)
        ensures
            r == json_i64(*self),
    {
        match self {
            Json::Number(n) => *n,
            _ => None,
        }
    }

    /// The items of an array.
    pub fn as_array(&self) -> (r: Option<&Vec<Json>>)
        ensures
            match r {
                Some(items) => json_items(*self) == Some(items@),
                None => json_items(*self) is None,
            },
    {
        match self {
            Json::Array(items) => Some(items),
            _ => None,
        }
    }

    /// The text of the member under a key.
    pub fn text_member(&self, key: &str) -> (r: Option<&String>)
        ensures
            match r {
                Some(s) => json_text_member(*self, key@) == Some(s@),
                None => json_text_member(*self, key@) is None,
            },
    {
        match self.member(key) {
            Some(m) => m.as_text(),
            None => None,
        }
    }
}

/// A list of texts as documents.
pub open spec fn text_documents(texts: Seq<Seq<char>>) -> Seq<JsonView> {
    texts.map_values(|t: Seq<char>| JsonView::Text(t))
}

/// What a list of documents holds.
pub open spec fn json_views(docs: Seq<Json>) -> Seq<JsonView> {
    docs.map_values(|d: Json| d@)
}

/// What a list of members holds.
pub open spec fn member_views(members: Seq<(String, Json)>) -> Seq<(Seq<char>, JsonView)> {
    members.map_values(|m: (String, Json)| (m.0@, m.1@))
}

/// A text as a document.
pub fn text(value: &str) -> (r: Json)
    ensures
        r@ == JsonView::Text(value@),
{
    Json::Text(value.to_owned())
}

/// A whole number as a document.
pub fn number(value: i64) -> (r: Json)
    ensures
        r@ == JsonView::Number(Some(value)),
{
    Json::Number(Some(value))
}

/// A list of documents as an array.
pub fn array(items: Vec<Json>) -> (r: Json)
    ensures
        r@ == JsonView::Array(json_views(items@)),
{
    let r = Json::Array(items);
    proof {
        assert(r@->Array_0 =~= json_views(items@));
    }
    r
}

/// A list of members as an object.
pub fn object(members: Vec<(String, Json)>) -> (r: Json)
    ensures
        r@ == JsonView::Object(member_views(members@)),
{
    let r = Json::Object(members);
    proof {
        assert(r@->Object_0 =~= member_views(members@));
    }
    r
}

/// Prints a document.
pub fn print(doc: &Json) -> (r: String)
    ensures
        r@ == json_printed(doc@),
{
    outside_print_json(doc)
}

/// A key that is found at the end of a prefix, and not before, is found
/// there in the whole sequence.
proof fn lemma_position_extends(keys: Seq<Seq<char>>, key: Seq<char>, i: int)
    requires
        0 <= i < keys.len(),
        keys[i] == key,
        position_of(keys.take(i), key) is None,
    ensures
        position_of(keys, key) == Some(i),
{
    crate::text_map::lemma_position_of(keys, key);
    crate::text_map::lemma_position_of(keys.take(i), key);
    assert(forall|j: int| 0 <= j < i ==> keys.take(i)[j] == keys[j]);
}

} // verus!
