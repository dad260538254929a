//! JSON documents: the values that the node reads from and writes to its peers.
//!
//! Reading and writing JSON text is the work of `serde_json`; this module holds
//! the documents as plain data and the questions that the handlers ask of them.

use vstd::prelude::*;
use vstd::string::*;

verus! {

/// A JSON document.
///
/// A number holds its value where it is an integer from 0 to 2^64 - 1, and
/// nothing where it is negative or has a fraction or an exponent: no rule of
/// the node reads such a number.
#[derive(Debug)]
pub enum Json {
    Null,
    Bool(bool),
    Number(Option<u64>),
    Text(String),
    List(Vec<Json>),
    Object(Vec<(String, Json)>),
}

/// What a `Json` stands for.
pub enum JsonView {
    Null,
    Bool(bool),
    Number(Option<u64>),
    Text(Seq<char>),
    List(Seq<JsonView>),
    Object(Seq<(Seq<char>, JsonView)>),
}

impl Json {
    /// What the document stands for.
    pub open spec fn view(&self) -> JsonView
        decreases self,
    {
        match self {
            Json::Null => JsonView::Null,
            Json::Bool(b) => JsonView::Bool(*b),
            Json::Number(n) => JsonView::Number(*n),
            Json::Text(s) => JsonView::Text(s@),
            Json::List(items) => JsonView::List(
                Seq::new(
                    items@.len(),
                    |i: int|
                        if 0 <= i < items@.len() {
                            items@[i].view()
                        } else {
                            JsonView::Null
                        },
                ),
            ),
            Json::Object(fields) => JsonView::Object(
                Seq::new(
                    fields@.len(),
                    |i: int|
                        if 0 <= i < fields@.len() {
                            (fields@[i].0@, fields@[i].1.view())
                        } else {
                            (Seq::empty(), JsonView::Null)
                        },
                ),
            ),
        }
    }
}

/// The views of the items of a list.
pub open spec fn items_view(items: Seq<Json>) -> Seq<JsonView> {
    Seq::new(items.len(), |i: int| items[i]@)
}

/// The views of the fields of an object.
pub open spec fn fields_view(fields: Seq<(String, Json)>) -> Seq<(Seq<char>, JsonView)> {
    Seq::new(fields.len(), |i: int| (fields[i].0@, fields[i].1@))
}

/// The view of a list is the list of the views of its items.
pub proof fn lemma_list_view(items: Vec<Json>)
    ensures
        Json::List(items)@ == JsonView::List(items_view(items@)),
{
    assert(Json::List(items)@->List_0 =~= items_view(items@));
}

/// The view of an object is the list of the views of its members.
pub proof fn lemma_object_view(fields: Vec<(String, Json)>)
    ensures
        Json::Object(fields)@ == JsonView::Object(fields_view(fields@)),
{
    assert(Json::Object(fields)@->Object_0 =~= fields_view(fields@));
}

/// The value of the first field named `key`.
pub open spec fn field_value(fields: Seq<(Seq<char>, JsonView)>, key: Seq<char>) -> Option<
    JsonView,
>
    decreases fields.len(),
{
    if fields.len() == 0 {
        None
    } else if fields[0].0 == key {
        Some(fields[0].1)
    } else {
        field_value(fields.drop_first(), key)
    }
}

impl JsonView {
    /// The member `key` of an object; nothing for another document.
    pub open spec fn get(self, key: Seq<char>) -> Option<JsonView> {
        match self {
            JsonView::Object(fields) => field_value(fields, key),
            _ => None,
        }
    }

    /// The text of a string; nothing for another document.
    pub open spec fn as_str(self) -> Option<Seq<char>> {
        match self {
            JsonView::Text(s) => Some(s),
            _ => None,
        }
    }

    /// The value of a number that is an unsigned integer; nothing for another document.
    pub open spec fn as_u64(self) -> Option<u64> {
        match self {
            JsonView::Number(n) => n,
            _ => None,
        }
    }

    /// The value of a boolean; nothing for another document.
    pub open spec fn as_bool(self) -> Option<bool> {
        match self {
            JsonView::Bool(b) => Some(b),
            _ => None,
        }
    }

    /// The items of a list; nothing for another document.
    pub open spec fn as_array(self) -> Option<Seq<JsonView>> {
        match self {
            JsonView::List(items) => Some(items),
            _ => None,
        }
    }

    /// The text of the member `key`, where it is a string.
    pub open spec fn str_member(self, key: Seq<char>) -> Option<Seq<char>> {
        match self.get(key) {
            Some(value) => value.as_str(),
            None => None,
        }
    }
}

impl Json {
    /// The member `key` of an object.
    pub fn get(&self, key: &str) -> (found: Option<&Json>)
        ensures
            match found {
                Some(value) => self@.get(key@) == Some(value@),
                None => self@.get(key@) is None,
            },
    {
        match self {
            Json::Object(fields) => {
                let name = key.to_owned();
                let mut i: usize = 0;
                proof {
                    lemma_object_view(*fields);
                    assert(fields_view(fields@).skip(0) =~= fields_view(fields@));
                }
                while i < fields.len()
                    invariant
                        0 <= i <= fields@.len(),
                        name@ == key@,
                        self@.get(key@) == field_value(fields_view(fields@), key@),
                        field_value(fields_view(fields@), key@) == field_value(
                            fields_view(fields@).skip(i as int),
                            key@,
                        ),
                    decreases fields@.len() - i,
                {
                    proof {
                        assert(fields_view(fields@).skip(i as int).drop_first() =~= fields_view(
                            fields@,
                        ).skip(i + 1));
                    }
                    if fields[i].0 == name {
                        proof {
                            assert(fields_view(fields@).skip(i as int)[0] == (
                                fields@[i as int].0@,
                                fields@[i as int].1@,
                            ));
                        }
                        return Some(&fields[i].1);
                    }
                    i += 1;
                }
                None
            },
            _ => None,
        }
    }

    /// The text of a string.
    pub fn as_str(&self) -> (text: Option<&str>)
        ensures
            match text {
                Some(s) => self@.as_str() == Some(s@),
                None => self@.as_str() is None,
            },
    {
        match self {
            Json::Text(s) => Some(s.as_str()),
            _ => None,
        }
    }

    /// The value of a number that is an unsigned integer.
    pub fn as_u64(&self) -> (value: Option<u64>)
        ensures
            value == self@.as_u64(),
    {
        match self {
            Json::Number(n) => *n,
            _ => None,
        }
    }

    /// The value of a boolean.
    pub fn as_bool(&self) -> (value: Option<bool>)
        ensures
            value == self@.as_bool(),
    {
        match self {
            Json::Bool(b) => Some(*b),
            _ => None,
        }
    }

    /// The items of a list.
    pub fn as_array(&self) -> (list: Option<&Vec<Json>>)
        ensures
            match list {
                Some(items) => self@.as_array() == Some(items_view(items@)),
                None => self@.as_array() is None,
            },
    {
        match self {
            Json::List(items) => {
                proof {
                    lemma_list_view(*items);
                }
                Some(items)
            },
            _ => None,
        }
    }

    /// The text of the member `key`, where it is a string.
    pub fn str_member(&self, key: &str) -> (text: Option<&str>)
        ensures
            match text {
                Some(s) => self@.str_member(key@) == Some(s@),
                None => self@.str_member(key@) is None,
            },
    {
        match self.get(key) {
            Some(value) => value.as_str(),
            None => None,
        }
    }
}

impl Json {
    /// A string.
    pub fn text(s: &str) -> (doc: Json)
        ensures
            doc@ == JsonView::Text(s@),
    {
        Json::Text(s.to_owned())
    }

    /// A number.
    pub fn number(n: u64) -> (doc: Json)
        ensures
            doc@ == JsonView::Number(Some(n)),
    {
        Json::Number(Some(n))
    }

    /// A list of the given items.
    pub fn list(items: Vec<Json>) -> (doc: Json)
        ensures
            doc@ == JsonView::List(items_view(items@)),
    {
        proof {
            lemma_list_view(items);
        }
        Json::List(items)
    }

    /// An object of the given members.
    pub fn object(fields: Vec<(String, Json)>) -> (doc: Json)
        ensures
            doc@ == JsonView::Object(fields_view(fields@)),
    {
        proof {
            lemma_object_view(fields);
        }
        Json::Object(fields)
    }

    /// A list of strings.
    pub fn text_list(strings: &Vec<String>) -> (doc: Json)
        ensures
            doc@ == text_list_view(strings@.map_values(|s: String| s@)),
    {
        let mut items: Vec<Json> = Vec::new();
        let mut i: usize = 0;
        while i < strings.len()
            invariant
                0 <= i <= strings@.len(),
                items@.len() == i,
                forall|j: int|
                    0 <= j < i ==> (#[trigger] items@[j])@ == JsonView::Text(strings@[j]@),
            decreases strings@.len() - i,
        {
            items.push(Json::text(strings[i].as_str()));
            i += 1;
        }
        let doc = Json::list(items);
        proof {
            assert(items_view(items@) =~= strings@.map_values(|s: String| s@).map_values(
                |t: Seq<char>| JsonView::Text(t),
            ));
        }
        doc
    }
}

/// A list of strings, as a document.
pub open spec fn text_list_view(strings: Seq<Seq<char>>) -> JsonView {
    JsonView::List(strings.map_values(|t: Seq<char>| JsonView::Text(t)))
}

/// A member of an object.
pub fn member(name: &str, value: Json) -> (field: (String, Json))
    ensures
        field.0@ == name@,
        field.1 == value,
{
    (name.to_owned(), value)
}

/// Trusted: `serde_json::Value`, which the verifier carries through without
/// looking inside.
#[verifier::external_type_specification]
#[verifier::external_body]
pub struct ExValue(serde_json::Value);

/// Trusted: turns a `Json` into the `serde_json::Value` of the same shape,
/// variant for variant. A number without a value becomes `null`.
#[verifier::external_body]
fn value_of(doc: &Json) -> serde_json::Value {
    match doc {
        Json::Null => serde_json::Value::Null,
        Json::Bool(b) => serde_json::Value::Bool(*b),
        Json::Number(n) => serde_json::Value::from(*n),
        Json::Text(s) => serde_json::Value::String(s.clone()),
        Json::List(items) => serde_json::Value::Array(items.iter().map(value_of).collect()),
        Json::Object(fields) => serde_json::Value::Object(
            fields.iter().map(|f| (f.0.clone(), value_of(&f.1))).collect(),
        ),
    }
}

/// Trusted: turns a `serde_json::Value` into the `Json` of the same shape,
/// variant for variant. A number keeps what `Number::as_u64` gives; the members
/// of an object come in the order in which its map holds them.
#[verifier::external_body]
fn json_of(value: &serde_json::Value) -> Json {
    match value {
        serde_json::Value::Null => Json::Null,
        serde_json::Value::Bool(b) => Json::Bool(*b),
        serde_json::Value::Number(n) => Json::Number(n.as_u64()),
        serde_json::Value::String(s) => Json::Text(s.clone()),
        serde_json::Value::Array(items) => Json::List(items.iter().map(json_of).collect()),
        serde_json::Value::Object(fields) => Json::Object(
            fields.iter().map(|f| (f.0.clone(), json_of(f.1))).collect(),
        ),
    }
}

/// The JSON text that `serde_json` writes for a document: compact, the members of
/// an object in the order of their keys.
pub uninterp spec fn json_text(doc: JsonView) -> Seq<char>;

/// The document that `serde_json` reads from a text, or the message of its error.
pub uninterp spec fn json_parse(text: Seq<char>) -> Result<JsonView, Seq<char>>;

/// The view of what `parse` returns.
pub open spec fn parsed_view(parsed: Result<Json, String>) -> Result<JsonView, Seq<char>> {
    match parsed {
        Ok(doc) => Ok(doc@),
        Err(message) => Err(message@),
    }
}

/// Trusted: `serde_json::Value::to_string`. The result is the text that
/// `serde_json` writes for the document, a function of the document alone.
#[verifier::external_body]
pub(crate) fn render(doc: &Json) -> (text: String)
    ensures
        text@ == json_text(doc@),
{
    value_of(doc).to_string()
}

/// Trusted: `serde_json::from_str`. The result is the document that `serde_json`
/// reads from the text, or the message of its error: a function of the text alone.
#[verifier::external_body]
pub(crate) fn parse(text: &str) -> (parsed: Result<Json, String>)
    ensures
        parsed_view(parsed) == json_parse(text@),
{
    match serde_json::from_str::<serde_json::Value>(text) {
        Ok(value) => Ok(json_of(&value)),
        Err(e) => Err(e.to_string()),
    }
}

} // verus!
