//! JSON documents as the library reads and writes them. Turning text into a
//! document and a document into text is the work of `serde_json`; what a
//! document means is decided here.

use vstd::prelude::*;
use vstd::string::*;

verus! {

/// A JSON document.
#[derive(Debug, PartialEq, Eq)]
pub enum Json {
    Null,
    Bool(bool),
    /// A whole number that is not negative.
    Unsigned(u64),
    /// A whole number that is written with a minus sign.
    Negative(i64),
    /// A number that is not a whole number in the range of `u64` or `i64`;
    /// what it is worth is not kept.
    Real,
    Text(String),
    List(Vec<Json>),
    /// The fields of an object, each with its name.
    Object(Vec<(String, Json)>),
}

/// A [`Json`] as plain values.
pub enum JsonModel {
    Null,
    Bool(bool),
    Integer(int),
    Real,
    Text(Seq<char>),
    List(Seq<JsonModel>),
    Object(Seq<(Seq<char>, JsonModel)>),
}

/// The document that a [`Json`] holds.
pub open spec fn json_model(document: Json) -> JsonModel
    decreases document,
{
    match document {
        Json::Null => JsonModel::Null,
        Json::Bool(flag) => JsonModel::Bool(flag),
        Json::Unsigned(number) => JsonModel::Integer(number as int),
        Json::Negative(number) => JsonModel::Integer(number as int),
        Json::Real => JsonModel::Real,
        Json::Text(text) => JsonModel::Text(text@),
        Json::List(items) => JsonModel::List(
            Seq::new(
                items@.len(),
                |i: int|
                    if 0 <= i < items@.len() {
                        json_model(items@[i])
                    } else {
                        JsonModel::Null
                    },
            ),
        ),
        Json::Object(fields) => JsonModel::Object(
            Seq::new(
                fields@.len(),
                |i: int|
                    if 0 <= i < fields@.len() {
                        (fields@[i].0@, json_model(fields@[i].1))
                    } else {
                        (Seq::empty(), JsonModel::Null)
                    },
            ),
        ),
    }
}

impl View for Json {
    type V = JsonModel;

    open spec fn view(&self) -> JsonModel {
        json_model(*self)
    }
}

impl JsonModel {
    /// Whether the document holds no number whose worth was not kept.
    pub open spec fn exact(self) -> bool
        decreases self,
    {
        match self {
            JsonModel::Real => false,
            JsonModel::List(items) => forall|i: int|
                0 <= i < items.len() ==> (#[trigger] items[i]).exact(),
            JsonModel::Object(fields) => forall|i: int|
                0 <= i < fields.len() ==> (#[trigger] fields[i]).1.exact(),
            _ => true,
        }
    }

    /// The whole number that the document is, if it is one.
    pub open spec fn integer(self) -> Option<int> {
        match self {
            JsonModel::Integer(number) => Some(number),
            _ => None,
        }
    }

    /// The text that the document is, if it is one.
    pub open spec fn text(self) -> Option<Seq<char>> {
        match self {
            JsonModel::Text(text) => Some(text),
            _ => None,
        }
    }

    /// The first field of an object with the given name.
    pub open spec fn field(self, name: Seq<char>) -> Option<JsonModel> {
        match self {
            JsonModel::Object(fields) => first_named(fields, name),
            _ => None,
        }
    }
}

/// The first of `fields` with the given name.
pub open spec fn first_named(fields: Seq<(Seq<char>, JsonModel)>, name: Seq<char>) -> Option<
    JsonModel,
>
    decreases fields.len(),
{
    if fields.len() == 0 {
        None
    } else if fields[0].0 == name {
        Some(fields[0].1)
    } else {
        first_named(fields.drop_first(), name)
    }
}

/// The document that a text stands for, if it is JSON.
pub uninterp spec fn parsed_json(text: Seq<char>) -> Option<JsonModel>;

/// The document that a value of `serde_json` holds.
pub uninterp spec fn value_model(value: serde_json::Value) -> JsonModel;

/// The text that `serde_json` writes for a value.
pub uninterp spec fn value_text(value: serde_json::Value) -> Seq<char>;

/// The text that a document is written as.
pub uninterp spec fn rendered_json(document: JsonModel) -> Seq<char>;

/// `serde_json::Value`, carried as it is: nothing is known of a value but
/// what the functions below say of it.
#[verifier::external_type_specification]
#[verifier::external_body]
pub struct ExValue(serde_json::Value);

/// `serde_json::from_str` for a `serde_json::Value`: whether the text is
/// JSON depends on the text alone, and so does the value that comes of it.
#[verifier::external_body]
pub(crate) fn value_from_str(text: &str) -> (parsed: Option<serde_json::Value>)
    ensures
        match parsed {
            Some(value) => parsed_json(text@) == Some(value_model(value)),
            None => parsed_json(text@) is None,
        },
{
    serde_json::from_str::<serde_json::Value>(text).ok()
}

/// Takes a `serde_json::Value` apart, variant by variant. Of a number it
/// keeps what `as_u64` gives, else what `as_i64` gives; a number for which
/// both give nothing becomes `Real`. The fields of an object come in the
/// order in which its map hands them out.
#[verifier::external_body]
pub(crate) fn tree_of(value: serde_json::Value) -> (tree: Json)
    ensures
        tree@ == value_model(value),
{
    match value {
        serde_json::Value::Null => Json::Null,
        serde_json::Value::Bool(flag) => Json::Bool(flag),
        serde_json::Value::Number(number) => match (number.as_u64(), number.as_i64()) {
            (Some(whole), _) => Json::Unsigned(whole),
            (None, Some(whole)) => Json::Negative(whole),
            (None, None) => Json::Real,
        },
        serde_json::Value::String(text) => Json::Text(text),
        serde_json::Value::Array(items) => Json::List(items.into_iter().map(tree_of).collect()),
        serde_json::Value::Object(fields) => Json::Object(
            fields.into_iter().map(|(name, item)| (name, tree_of(item))).collect(),
        ),
    }
}

/// Builds the `serde_json::Value` of a document, variant by variant. The
/// text that `serde_json` writes for it depends on the document alone. A
/// document with a `Real` in it has no value of its own and is left out.
#[verifier::external_body]
pub(crate) fn value_of(tree: &Json) -> (value: serde_json::Value)
    requires
        tree@.exact(),
    ensures
        value_text(value) == rendered_json(tree@),
{
    match tree {
        Json::Null | Json::Real => serde_json::Value::Null,
        Json::Bool(flag) => serde_json::Value::Bool(*flag),
        Json::Unsigned(whole) => serde_json::Value::from(*whole),
        Json::Negative(whole) => serde_json::Value::from(*whole),
        Json::Text(text) => serde_json::Value::String(text.clone()),
        Json::List(items) => serde_json::Value::Array(items.iter().map(value_of).collect()),
        Json::Object(fields) => serde_json::Value::Object(
            fields.iter().map(|(name, item)| (name.clone(), value_of(item))).collect(),
        ),
    }
}

/// `serde_json::to_string` for a `serde_json::Value`, which it does not
/// refuse: a value has text for its keys and no number that is not finite.
#[verifier::external_body]
pub(crate) fn value_to_string(value: &serde_json::Value) -> (text: String)
    ensures
        text@ == value_text(*value),
{
    match serde_json::to_string(value) {
        Ok(text) => text,
        Err(_) => String::new(),
    }
}

/// The document that a text stands for, if it is JSON.
pub fn parse(text: &str) -> (document: Option<Json>)
    ensures
        match document {
            Some(tree) => parsed_json(text@) == Some(tree@),
            None => parsed_json(text@) is None,
        },
{
    match value_from_str(text) {
        Some(value) => Some(tree_of(value)),
        None => None,
    }
}

/// The text of a document.
pub fn render(document: &Json) -> (text: String)
    requires
        document@.exact(),
    ensures
        text@ == rendered_json(document@),
{
    let value = value_of(document);
    value_to_string(&value)
}

/// The text of a document, or nothing for a document that holds a number
/// whose worth was not kept.
pub fn try_render(document: &Json) -> (text: Option<String>)
    ensures
        match text {
            Some(written) => document@.exact() && written@ == rendered_json(document@),
            None => !document@.exact(),
        },
{
    if document.is_exact() {
        Some(render(document))
    } else {
        None
    }
}

impl Json {
    /// Whether the document holds no number whose worth was not kept.
    #[verifier::loop_isolation(false)]
    pub fn is_exact(&self) -> (result: bool)
        ensures
            result == self@.exact(),
        decreases self,
    {
        match self {
            Json::Real => false,
            Json::List(items) => {
                let ghost all = self@->List_0;
                let mut i: usize = 0;
                while i < items.len()
                    invariant
                        i <= items@.len(),
                        forall|k: int| 0 <= k < i ==> (#[trigger] all[k]).exact(),
                    decreases items@.len() - i,
                {
                    assert(all[i as int] == items@[i as int]@);
                    if !items[i].is_exact() {
                        return false;
                    }
                    i += 1;
                }
                true
            },
            Json::Object(fields) => {
                let ghost all = self@->Object_0;
                let mut i: usize = 0;
                while i < fields.len()
                    invariant
                        i <= fields@.len(),
                        forall|k: int| 0 <= k < i ==> (#[trigger] all[k]).1.exact(),
                    decreases fields@.len() - i,
                {
                    assert(all[i as int] == (fields@[i as int].0@, fields@[i as int].1@));
                    if !fields[i].1.is_exact() {
                        return false;
                    }
                    i += 1;
                }
                true
            },
            _ => true,
        }
    }

    /// The number that the document is, if it is a whole number.
    pub fn integer(&self) -> (number: Option<i128>)
        ensures
            match number {
                Some(whole) => self@.integer() == Some(whole as int),
                None => self@.integer() is None,
            },
    {
        match self {
            Json::Unsigned(whole) => Some(*whole as i128),
            Json::Negative(whole) => Some(*whole as i128),
            _ => None,
        }
    }

    /// The text that the document is, if it is one.
    pub fn text(&self) -> (text: Option<&String>)
        ensures
            match text {
                Some(found) => self@.text() == Some(found@),
                None => self@.text() is None,
            },
    {
        match self {
            Json::Text(text) => Some(text),
            _ => None,
        }
    }

    /// The first field of an object with the given name.
    pub fn field(&self, name: &str) -> (found: Option<&Json>)
        ensures
            match found {
                Some(item) => self@.field(name@) == Some(item@),
                None => self@.field(name@) is None,
            },
    {
        match self {
            Json::Object(fields) => {
                let ghost all = self@->Object_0;
                let mut i: usize = 0;
                assert(all.skip(0) =~= all);
                assert(all.len() == fields@.len());
                assert forall|k: int| 0 <= k < all.len() implies #[trigger] all[k] == (
                    fields@[k].0@,
                    fields@[k].1@,
                ) by {}
                while i < fields.len()
                    invariant
                        i <= fields@.len(),
                        self@ == JsonModel::Object(all),
                        all.len() == fields@.len(),
                        forall|k: int|
                            0 <= k < all.len() ==> #[trigger] all[k] == (
                                fields@[k].0@,
                                fields@[k].1@,
                            ),
                        first_named(all, name@) == first_named(all.skip(i as int), name@),
                    decreases fields@.len() - i,
                {
                    if crate::text::same_text(fields[i].0.as_str(), name) {
                        assert(all.skip(i as int)[0] == all[i as int]);
                        return Some(&fields[i].1);
                    }
                    assert(all.skip(i as int).drop_first() =~= all.skip(i + 1));
                    i += 1;
                }
                None
            },
            _ => None,
        }
    }
}

} // verus!
