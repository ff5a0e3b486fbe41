//! JSON documents as plain values.
use serde_json::Value;

use crate::text;
use vstd::prelude::*;

verus! {

/// `serde_json::Value` as an opaque type.
#[verifier::external_type_specification]
#[verifier::external_body]
pub struct ExValue(Value);

/// A JSON document.
#[derive(Debug)]
pub enum Json {
    Null,
    Bool(bool),
    Count(u64),
    Text(String),
    List(Vec<Json>),
    Object(Vec<(String, Json)>),
    /// A value that nothing here looks into.
    Verbatim(Value),
}

/// What a JSON document says.
pub enum Tree {
    Null,
    Bool(bool),
    Count(u64),
    Text(Seq<char>),
    List(Seq<Tree>),
    Object(Seq<(Seq<char>, Tree)>),
    Verbatim(Value),
}

impl Json {
    /// What the document says.
    pub open spec fn tree(self) -> Tree
        decreases self,
    {
        match self {
            Json::Null => Tree::Null,
            Json::Bool(b) => Tree::Bool(b),
            Json::Count(n) => Tree::Count(n),
            Json::Text(s) => Tree::Text(s@),
            Json::List(items) => Tree::List(
                Seq::new(
                    items@.len(),
                    |i: int|
                        if 0 <= i < items@.len() {
                            items@[i].tree()
                        } else {
                            Tree::Null
                        },
                ),
            ),
            Json::Object(fields) => Tree::Object(
                Seq::new(
                    fields@.len(),
                    |i: int|
                        if 0 <= i < fields@.len() {
                            (fields@[i].0@, fields@[i].1.tree())
                        } else {
                            (Seq::empty(), Tree::Null)
                        },
                ),
            ),
            Json::Verbatim(v) => Tree::Verbatim(v),
        }
    }
}

/// What a list of documents says.
pub open spec fn trees(items: Seq<Json>) -> Seq<Tree> {
    items.map_values(|j: Json| j.tree())
}

/// What a list of named documents says.
pub open spec fn fields_of(fields: Seq<(String, Json)>) -> Seq<(Seq<char>, Tree)> {
    fields.map_values(|f: (String, Json)| (f.0@, f.1.tree()))
}

/// A list says what its items say.
pub proof fn lemma_list(items: Vec<Json>)
    ensures
        Json::List(items).tree() == Tree::List(trees(items@)),
{
    let got = Json::List(items).tree()->List_0;
    assert(got =~= trees(items@));
}

/// An object says what its fields say.
pub proof fn lemma_object(fields: Vec<(String, Json)>)
    ensures
        Json::Object(fields).tree() == Tree::Object(fields_of(fields@)),
{
    let got = Json::Object(fields).tree()->Object_0;
    assert(got =~= fields_of(fields@));
}

/// The first field of the given name, if the document is an object with one.
pub open spec fn field(t: Tree, key: Seq<char>) -> Option<Tree> {
    match t {
        Tree::Object(fields) => field_in(fields, key),
        _ => None,
    }
}

/// The first field of the given name.
pub open spec fn field_in(fields: Seq<(Seq<char>, Tree)>, key: Seq<char>) -> Option<Tree>
    decreases fields.len(),
{
    if fields.len() == 0 {
        None
    } else if fields[0].0 == key {
        Some(fields[0].1)
    } else {
        field_in(fields.skip(1), key)
    }
}

impl Json {
    /// The first field of the given name, if this is an object with one.
    pub fn get(&self, key: &str) -> (r: Option<&Json>)
        ensures
            r is Some <==> field(self.tree(), key@) is Some,
            r matches Some(j) ==> field(self.tree(), key@) == Some(j.tree()),
    {
        match self {
            Json::Object(fields) => {
                let ghost all = fields_of(fields@);
                proof {
                    lemma_object(*fields);
                    assert(all.skip(0) =~= all);
                }
                let mut i: usize = 0;
                while i < fields.len()
                    invariant
                        i <= fields@.len(),
                        all == fields_of(fields@),
                        self.tree() == Tree::Object(all),
                        field_in(all.skip(i as int), key@) == field_in(all, key@),
                    decreases fields.len() - i,
                {
                    let f = &fields[i];
                    proof {
                        assert(all.skip(i as int)[0] == (f.0@, f.1.tree()));
                        assert(all.skip(i as int).skip(1) =~= all.skip(i + 1));
                    }
                    if text::same(f.0.as_str(), key) {
                        return Some(&f.1);
                    }
                    i = i + 1;
                }
                None
            },
            _ => None,
        }
    }

    /// The items, if this is a list.
    pub fn as_array(&self) -> (r: Option<&Vec<Json>>)
        ensures
            r is Some <==> self.tree() is List,
            r matches Some(items) ==> self.tree() == Tree::List(trees(items@)),
    {
        match self {
            Json::List(items) => {
                proof {
                    lemma_list(*items);
                }
                Some(items)
            },
            _ => None,
        }
    }

    /// The text, if this is one.
    pub fn as_str(&self) -> (r: Option<&str>)
        ensures
            r is Some <==> self.tree() is Text,
            r matches Some(s) ==> self.tree() == Tree::Text(s@),
    {
        match self {
            Json::Text(s) => Some(s.as_str()),
            _ => None,
        }
    }
}

/// Cloning a `serde_json::Value` gives an equal one.
pub assume_specification[ <Value as Clone>::clone ](v: &Value) -> (r: Value)
    ensures
        r == *v,
;

/// What a parsed document says.
pub uninterp spec fn contents(v: Value) -> Tree;

/// What a text says as JSON, or in words why it is none.
pub uninterp spec fn document(text: Seq<char>) -> Result<Tree, Seq<char>>;

/// `serde_json::from_str`, its error in words: a document that says what the
/// text does, or why the text is none. Both depend on the text alone.
#[verifier::external_body]
pub(crate) fn from_text(text: &str) -> (r: Result<Value, String>)
    ensures
        match r {
            Ok(v) => document(text@) == Ok::<Tree, Seq<char>>(contents(v)),
            Err(e) => document(text@) == Err::<Tree, Seq<char>>(e@),
        },
{
    match serde_json::from_str(text) {
        Ok(v) => Ok(v),
        Err(e) => Err(e.to_string()),
    }
}

/// A `serde_json::Value` as plain values, variant by variant. A number stays
/// as it is.
#[verifier::external_body]
pub(crate) fn plain(v: Value) -> (r: Json)
    ensures
        r.tree() == contents(v),
{
    match v {
        Value::Null => Json::Null,
        Value::Bool(b) => Json::Bool(b),
        Value::String(s) => Json::Text(s),
        Value::Array(items) => Json::List(items.into_iter().map(plain).collect()),
        Value::Object(fields) => {
            Json::Object(fields.into_iter().map(|(k, v)| (k, plain(v))).collect())
        },
        Value::Number(n) => Json::Verbatim(Value::Number(n)),
    }
}

/// The `serde_json::Value` that a document makes.
pub uninterp spec fn value_of(t: Tree) -> Value;

/// A document as a `serde_json::Value`, variant by variant; what was verbatim
/// is that value. What it makes depends on what the document says alone.
#[verifier::external_body]
pub(crate) fn value(j: Json) -> (r: Value)
    ensures
        r == value_of(j.tree()),
        j.tree() matches Tree::Verbatim(v) ==> r == v,
{
    match j {
        Json::Null => Value::Null,
        Json::Bool(b) => Value::Bool(b),
        Json::Count(n) => Value::from(n),
        Json::Text(s) => Value::String(s),
        Json::List(items) => Value::Array(items.into_iter().map(value).collect()),
        Json::Object(fields) => {
            Value::Object(fields.into_iter().map(|(k, v)| (k, value(v))).collect())
        },
        Json::Verbatim(v) => v,
    }
}

/// The text that a value is written as.
pub uninterp spec fn written(v: Value) -> Seq<char>;

/// `Value::to_string`: the value as compact JSON text, which depends on the
/// value alone.
#[verifier::external_body]
pub(crate) fn write(v: &Value) -> (r: String)
    ensures
        r@ == written(*v),
{
    v.to_string()
}

} // verus!
