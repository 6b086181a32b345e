//! Values for JSON documents.

use vstd::prelude::*;
use crate::text::texts;

verus! {

/// A value. `Tenths` is a number in tenths.
#[derive(Debug, PartialEq, Eq)]
pub enum Json {
    Null,
    Bool(bool),
    Number(u64),
    Tenths(u64),
    Text(String),
    List(Vec<Json>),
    Object(Vec<Entry>),
}

/// A named value of an object.
#[derive(Debug, PartialEq, Eq)]
pub struct Entry {
    pub name: String,
    pub value: Json,
}

/// What a `Json` holds.
pub enum JsonText {
    Null,
    Bool(bool),
    Number(nat),
    Tenths(nat),
    Text(Seq<char>),
    List(Seq<JsonText>),
    Object(Seq<(Seq<char>, JsonText)>),
}

pub open spec fn json_text(j: Json) -> JsonText
    decreases j,
{
    match j {
        Json::Null => JsonText::Null,
        Json::Bool(b) => JsonText::Bool(b),
        Json::Number(n) => JsonText::Number(n as nat),
        Json::Tenths(n) => JsonText::Tenths(n as nat),
        Json::Text(t) => JsonText::Text(t@),
        Json::List(v) => JsonText::List(json_texts(v@)),
        Json::Object(v) => JsonText::Object(entry_texts(v@)),
    }
}

pub open spec fn json_texts(v: Seq<Json>) -> Seq<JsonText>
    decreases v,
{
    Seq::new(
        v.len(),
        |i: int|
            if 0 <= i < v.len() {
                json_text(v[i])
            } else {
                JsonText::Null
            },
    )
}

pub open spec fn entry_texts(v: Seq<Entry>) -> Seq<(Seq<char>, JsonText)>
    decreases v,
{
    Seq::new(
        v.len(),
        |i: int|
            if 0 <= i < v.len() {
                (v[i].name@, json_text(v[i].value))
            } else {
                (Seq::empty(), JsonText::Null)
            },
    )
}

impl View for Json {
    type V = JsonText;

    open spec fn view(&self) -> JsonText {
        json_text(*self)
    }
}

/// A text.
pub fn text(s: &str) -> (r: Json)
    ensures
        r@ == JsonText::Text(s@),
{
    Json::Text(s.to_owned())
}

/// A text, or null for none.
pub open spec fn text_or_null(t: Option<String>) -> JsonText {
    match t {
        Some(s) => JsonText::Text(s@),
        None => JsonText::Null,
    }
}

/// A text, or null for none.
pub fn optional_text(t: &Option<String>) -> (r: Json)
    ensures
        r@ == text_or_null(*t),
{
    match t {
        Some(s) => text(s.as_str()),
        None => Json::Null,
    }
}

impl JsonText {
    /// An object without entries.
    pub open spec fn object() -> JsonText {
        JsonText::Object(Seq::empty())
    }

    /// An object with one more entry.
    pub open spec fn with(self, name: Seq<char>, value: JsonText) -> JsonText {
        match self {
            JsonText::Object(v) => JsonText::Object(v.push((name, value))),
            other => other,
        }
    }
}

impl Json {
    /// An object without entries.
    pub fn object() -> (r: Json)
        ensures
            r@ == JsonText::object(),
    {
        let v: Vec<Entry> = Vec::new();
        assert(entry_texts(v@) =~= Seq::empty());
        Json::Object(v)
    }

    /// An object with one more entry.
    pub fn with(self, name: &str, value: Json) -> (r: Json)
        ensures
            r@ == self@.with(name@, value@),
    {
        match self {
            Json::Object(v) => {
                let ghost was = v@;
                let mut v: Vec<Entry> = v;
                v.push(Entry { name: name.to_owned(), value });
                assert(entry_texts(v@) =~= entry_texts(was).push((name@, value@)));
                Json::Object(v)
            },
            other => other,
        }
    }
}

/// Adds a value to a list.
pub fn put_item(v: &mut Vec<Json>, value: Json)
    ensures
        json_texts(final(v)@) == json_texts(old(v)@).push(value@),
{
    let ghost was = v@;
    v.push(value);
    assert(json_texts(v@) =~= json_texts(was).push(value@));
}

/// The list of these values.
pub fn list(v: Vec<Json>) -> (r: Json)
    ensures
        r@ == JsonText::List(json_texts(v@)),
{
    Json::List(v)
}

/// No values.
pub fn items() -> (r: Vec<Json>)
    ensures
        json_texts(r@) == Seq::<JsonText>::empty(),
{
    let v: Vec<Json> = Vec::new();
    assert(json_texts(v@) =~= Seq::empty());
    v
}

/// Texts as a list.
pub open spec fn texts_list(v: Seq<Seq<char>>) -> JsonText {
    JsonText::List(v.map_values(|t: Seq<char>| JsonText::Text(t)))
}

/// Texts as a list.
pub fn text_list(v: &[String]) -> (r: Json)
    ensures
        r@ == texts_list(texts(v@)),
{
    let ghost all = texts(v@).map_values(|t: Seq<char>| JsonText::Text(t));
    let mut out: Vec<Json> = items();
    let mut i: usize = 0;
    while i < v.len()
        invariant
            i <= v@.len(),
            json_texts(out@) == all.take(i as int),
        decreases v@.len() - i,
    {
        assert(all.take(i + 1) =~= all.take(i as int).push(all[i as int]));
        put_item(&mut out, text(v[i].as_str()));
        i += 1;
    }
    assert(all.take(i as int) =~= all);
    list(out)
}

} // verus!
