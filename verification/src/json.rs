//! JSON documents as plain data, with the mathematical value each one stands for.

use vstd::prelude::*;
use crate::text::same_text;

verus! {

/// The mathematical value of a JSON document.
pub ghost enum Json {
    Null,
    Bool(bool),
    /// A number, by its canonical text.
    Number(Seq<char>),
    Text(Seq<char>),
    Array(Seq<Json>),
    /// Members in document order.
    Object(Seq<JsonMember>),
}

/// One `key: value` member of a JSON object.
pub ghost struct JsonMember {
    pub key: Seq<char>,
    pub value: Json,
}

/// One `key: value` member of a JSON object.
#[derive(Debug)]
pub struct Member {
    pub key: String,
    pub value: JsonDoc,
}

/// A JSON document held as plain data.
#[derive(Debug)]
pub enum JsonDoc {
    Null,
    Bool(bool),
    /// A number, by its canonical text.
    Number(String),
    Text(String),
    Array(Vec<JsonDoc>),
    /// Members in document order.
    Object(Vec<Member>),
}

impl View for JsonDoc {
    type V = Json;

    open spec fn view(&self) -> Json
        decreases self,
    {
        match self {
            JsonDoc::Null => Json::Null,
            JsonDoc::Bool(b) => Json::Bool(*b),
            JsonDoc::Number(t) => Json::Number(t@),
            JsonDoc::Text(t) => Json::Text(t@),
            JsonDoc::Array(items) => Json::Array(
                Seq::new(
                    items@.len(),
                    |i: int|
                        if 0 <= i < items@.len() {
                            items@[i].view()
                        } else {
                            Json::Null
                        },
                ),
            ),
            JsonDoc::Object(members) => Json::Object(
                Seq::new(
                    members@.len(),
                    |i: int|
                        if 0 <= i < members@.len() {
                            JsonMember { key: members@[i].key@, value: members@[i].value.view() }
                        } else {
                            JsonMember { key: Seq::empty(), value: Json::Null }
                        },
                ),
            ),
        }
    }
}

/// The value of an object is made of the keys and values of its members.
pub proof fn lemma_object_view(doc: JsonDoc)
    requires
        doc is Object,
    ensures
        doc@ is Object,
        doc@->Object_0.len() == doc->Object_0@.len(),
        forall|k: int|
            0 <= k < doc->Object_0@.len() ==> #[trigger] doc@->Object_0[k] == (JsonMember {
                key: doc->Object_0@[k].key@,
                value: doc->Object_0@[k].value@,
            }),
{
}

/// The value of an array is made of the values of its items.
pub proof fn lemma_array_view(doc: JsonDoc)
    requires
        doc is Array,
    ensures
        doc@ is Array,
        doc@->Array_0.len() == doc->Array_0@.len(),
        forall|k: int| 0 <= k < doc->Array_0@.len() ==> #[trigger] doc@->Array_0[k] == doc->Array_0@[k]@,
{
}

/// The value of the first of `members` with the key `key`.
pub open spec fn lookup(members: Seq<JsonMember>, key: Seq<char>) -> Option<Json>
    decreases members.len(),
{
    if members.len() == 0 {
        None
    } else if members.first().key == key {
        Some(members.first().value)
    } else {
        lookup(members.drop_first(), key)
    }
}

/// The member `key` of an object; `None` for a missing member, and for a
/// document that is no object.
pub open spec fn field_of(doc: Json, key: Seq<char>) -> Option<Json> {
    match doc {
        Json::Object(members) => lookup(members, key),
        _ => None,
    }
}

/// The content of a string; `None` for any other document.
pub open spec fn text_of(doc: Json) -> Option<Seq<char>> {
    match doc {
        Json::Text(t) => Some(t),
        _ => None,
    }
}

/// The content of the string member `key` of an object.
pub open spec fn text_field(doc: Json, key: Seq<char>) -> Option<Seq<char>> {
    match field_of(doc, key) {
        Some(value) => text_of(value),
        None => None,
    }
}

/// The outside crate's JSON value; opaque here.
#[verifier::external_type_specification]
#[verifier::external_body]
pub struct ExValue(serde_json::Value);

/// What `serde_json::from_str` makes of `text` as one JSON value: `None`
/// where it reports an error.
pub uninterp spec fn parsed_json(text: Seq<char>) -> Option<Json>;

/// What `serde_json::to_string` writes for `doc`: its compact JSON text, or
/// `None` where `doc` holds a number text that is no JSON number.
pub uninterp spec fn compact_json(doc: Json) -> Option<Seq<char>>;

/// Copies a `serde_json::Value` into a `JsonDoc`, variant by variant; a number
/// is kept as the text that its `Display` impl writes.
#[verifier::external_body]
fn doc_of_value(value: serde_json::Value) -> JsonDoc {
    match value {
        serde_json::Value::Null => JsonDoc::Null,
        serde_json::Value::Bool(b) => JsonDoc::Bool(b),
        serde_json::Value::Number(n) => JsonDoc::Number(n.to_string()),
        serde_json::Value::String(s) => JsonDoc::Text(s),
        serde_json::Value::Array(a) => JsonDoc::Array(a.into_iter().map(doc_of_value).collect()),
        serde_json::Value::Object(o) => JsonDoc::Object(
            o.into_iter().map(|(key, v)| Member { key, value: doc_of_value(v) }).collect(),
        ),
    }
}

/// Copies a `JsonDoc` into a `serde_json::Value`, variant by variant; `None`
/// where a number text is not accepted by `serde_json::from_str`.
#[verifier::external_body]
fn value_of_doc(doc: &JsonDoc) -> Option<serde_json::Value> {
    Some(match doc {
        JsonDoc::Null => serde_json::Value::Null,
        JsonDoc::Bool(b) => serde_json::Value::Bool(*b),
        JsonDoc::Number(t) => serde_json::Value::Number(serde_json::from_str(t).ok()?),
        JsonDoc::Text(t) => serde_json::Value::String(t.clone()),
        JsonDoc::Array(a) => serde_json::Value::Array(a.iter().map(value_of_doc).collect::<Option<_>>()?),
        JsonDoc::Object(o) => serde_json::Value::Object(
            o.iter().map(|m| Some((m.key.clone(), value_of_doc(&m.value)?))).collect::<Option<_>>()?,
        ),
    })
}

/// Calls `serde_json::from_str` on `text`. The result is the document that the
/// crate parses from `text`, in the order of the text; an error gives `None`.
#[verifier::external_body]
pub(crate) fn parse_text(text: &str) -> (r: Option<JsonDoc>)
    ensures
        r is Some == parsed_json(text@) is Some,
        r matches Some(doc) ==> Some(doc@) == parsed_json(text@),
{
    match serde_json::from_str::<serde_json::Value>(text) {
        Ok(value) => Some(doc_of_value(value)),
        Err(_) => None,
    }
}

/// Calls `serde_json::to_string` on the value that `doc` stands for. The
/// result is the compact JSON text that the crate writes for it.
#[verifier::external_body]
pub(crate) fn compact(doc: &JsonDoc) -> (r: Option<String>)
    ensures
        r is Some == compact_json(doc@) is Some,
        r matches Some(text) ==> Some(text@) == compact_json(doc@),
{
    match value_of_doc(doc) {
        Some(value) => serde_json::to_string(&value).ok(),
        None => None,
    }
}

/// The text that a failed serialization leaves in place of the value.
pub open spec fn serialization_error_text() -> Seq<char> {
    "[serialization error]"@
}

/// The value string of `doc`, given the compact text `written` of a complex
/// document: a string gives its content, a number or boolean its canonical
/// text, null the empty text, an array or object `written`, or the error
/// marker where there is none.
pub open spec fn value_text(doc: Json, written: Option<Seq<char>>) -> Seq<char> {
    match doc {
        Json::Null => Seq::empty(),
        Json::Bool(b) => if b {
            "true"@
        } else {
            "false"@
        },
        Json::Number(t) => t,
        Json::Text(t) => t,
        _ => match written {
            Some(t) => t,
            None => serialization_error_text(),
        },
    }
}

/// The value string of `doc`.
pub open spec fn rendered(doc: Json) -> Seq<char> {
    value_text(doc, compact_json(doc))
}

impl JsonDoc {
    /// Whether the document is an array or an object.
    pub open spec fn spec_is_complex(&self) -> bool {
        self@ is Array || self@ is Object
    }

    /// Whether the document is an array or an object.
    #[verifier::when_used_as_spec(spec_is_complex)]
    pub fn is_complex(&self) -> (r: bool)
        ensures
            r == self.spec_is_complex(),
    {
        match self {
            JsonDoc::Array(_) => true,
            JsonDoc::Object(_) => true,
            _ => false,
        }
    }

    /// The member `key` of an object.
    pub fn get(&self, key: &str) -> (r: Option<&JsonDoc>)
        ensures
            r is Some == field_of(self@, key@) is Some,
            r matches Some(value) ==> Some(value@) == field_of(self@, key@),
    {
        match self {
            JsonDoc::Object(members) => {
                let ghost model = self@->Object_0;
                proof {
                    lemma_object_view(*self);
                    assert(model.skip(0) =~= model);
                }
                let mut i: usize = 0;
                while i < members.len()
                    invariant
                        i <= members.len(),
                        self@ == Json::Object(model),
                        model.len() == members@.len(),
                        forall|k: int|
                            0 <= k < members@.len() ==> #[trigger] model[k] == (JsonMember {
                                key: members@[k].key@,
                                value: members@[k].value@,
                            }),
                        lookup(model, key@) == lookup(model.skip(i as int), key@),
                    decreases members.len() - i,
                {
                    proof {
                        assert(model.skip(i as int).first() == model[i as int]);
                        assert(model.skip(i as int).drop_first() =~= model.skip(i + 1));
                    }
                    if same_text(members[i].key.as_str(), key) {
                        return Some(&members[i].value);
                    }
                    i += 1;
                }
                None
            },
            _ => None,
        }
    }

    /// The content of a string document.
    pub fn as_text(&self) -> (r: Option<&String>)
        ensures
            r is Some == text_of(self@) is Some,
            r matches Some(t) ==> Some(t@) == text_of(self@),
    {
        match self {
            JsonDoc::Text(t) => Some(t),
            _ => None,
        }
    }

    /// The content of the string member `key`.
    pub fn get_text(&self, key: &str) -> (r: Option<&String>)
        ensures
            r is Some == text_field(self@, key@) is Some,
            r matches Some(t) ==> Some(t@) == text_field(self@, key@),
    {
        match self.get(key) {
            Some(value) => value.as_text(),
            None => None,
        }
    }

    /// Parses one JSON value from `text`.
    pub fn parse(text: &str) -> (r: Option<JsonDoc>)
        ensures
            r is Some == parsed_json(text@) is Some,
            r matches Some(doc) ==> Some(doc@) == parsed_json(text@),
    {
        parse_text(text)
    }

    /// The value string of the document, given the compact text `written` of a
    /// complex document.
    pub fn render_with(&self, written: Option<String>) -> (out: String)
        ensures
            out@ == value_text(
                self@,
                match written {
                    Some(t) => Some(t@),
                    None => None,
                },
            ),
    {
        match self {
            JsonDoc::Null => String::new(),
            JsonDoc::Bool(b) => if *b {
                "true".to_owned()
            } else {
                "false".to_owned()
            },
            JsonDoc::Number(t) => t.clone(),
            JsonDoc::Text(t) => t.clone(),
            _ => match written {
                Some(t) => t,
                None => "[serialization error]".to_owned(),
            },
        }
    }

    /// The value string of the document: its content for a string, its
    /// canonical text for a number or boolean, the empty text for null, and
    /// compact JSON for an array or object.
    pub fn render(&self) -> (out: String)
        ensures
            out@ == rendered(self@),
    {
        let written = if self.is_complex() {
            compact(self)
        } else {
            None
        };
        self.render_with(written)
    }
}

} // verus!
