//! The boundary to `serde_json`: a mathematical model of a JSON document, and
//! the few accessors and constructors that the crate needs, each with its
//! contract over that model.

use vstd::prelude::*;
use serde_json::Value;

verus! {

/// `serde_json::Value`, carried through verified code as an opaque value.
#[verifier::external_type_specification]
#[verifier::external_body]
pub struct ExValue(Value);

/// What a JSON document holds, as far as this crate reads it: strings,
/// arrays and objects. Every other kind of value (null, booleans, numbers)
/// is `Other`.
pub enum Doc {
    Text(Seq<char>),
    List(Seq<Doc>),
    Object(Map<Seq<char>, Doc>),
    Other,
}

/// The document that a `serde_json::Value` holds.
pub uninterp spec fn doc_of(v: Value) -> Doc;

impl Doc {
    /// The member `key` of an object; `None` for a missing key and for
    /// anything that is not an object.
    pub open spec fn member(self, key: Seq<char>) -> Option<Doc> {
        match self {
            Doc::Object(m) => if m.dom().contains(key) {
                Some(m[key])
            } else {
                None
            },
            _ => None,
        }
    }

    /// The characters of a string value; `None` for anything else.
    pub open spec fn text(self) -> Option<Seq<char>> {
        match self {
            Doc::Text(s) => Some(s),
            _ => None,
        }
    }

    /// The elements of an array; `None` for anything else.
    pub open spec fn elements(self) -> Option<Seq<Doc>> {
        match self {
            Doc::List(l) => Some(l),
            _ => None,
        }
    }

    /// The string held by member `key`, where there is one.
    pub open spec fn text_member(self, key: Seq<char>) -> Option<Seq<char>> {
        match self.member(key) {
            Some(d) => d.text(),
            None => None,
        }
    }
}

/// The documents held by a sequence of values, one for one.
pub open spec fn docs_of(vs: Seq<Value>) -> Seq<Doc> {
    vs.map_values(|v: Value| doc_of(v))
}

/// `Value::get` with a string key. Trusted: the result is the member of that
/// name where the value is an object that has one, and `None` otherwise.
#[verifier::external_body]
pub(crate) fn get_member<'a>(v: &'a Value, key: &str) -> (r: Option<&'a Value>)
    ensures
        match r {
            Some(m) => doc_of(*v).member(key@) == Some(doc_of(*m)),
            None => doc_of(*v).member(key@) is None,
        },
{
    v.get(key)
}

/// `Value::as_str`. Trusted: the result is the string where the value is a
/// string, and `None` otherwise.
#[verifier::external_body]
pub(crate) fn get_text<'a>(v: &'a Value) -> (r: Option<&'a str>)
    ensures
        match r {
            Some(s) => doc_of(*v).text() == Some(s@),
            None => doc_of(*v).text() is None,
        },
{
    v.as_str()
}

/// `Value::as_array`. Trusted: the result is the vector of elements where
/// the value is an array, and `None` otherwise.
#[verifier::external_body]
pub(crate) fn get_elements<'a>(v: &'a Value) -> (r: Option<&'a Vec<Value>>)
    ensures
        match r {
            Some(l) => doc_of(*v).elements() == Some(docs_of(l@)),
            None => doc_of(*v).elements() is None,
        },
{
    v.as_array()
}

/// Reads the string held by member `key` of `v`.
pub fn text_member(v: &Value, key: &str) -> (r: Option<String>)
    ensures
        match r {
            Some(s) => doc_of(*v).text_member(key@) == Some(s@),
            None => doc_of(*v).text_member(key@) is None,
        },
{
    match get_member(v, key) {
        Some(m) => match get_text(m) {
            Some(s) => Some(s.to_owned()),
            None => None,
        },
        None => None,
    }
}

/// `Value::String`. Trusted: the value made is the string given.
#[verifier::external_body]
pub(crate) fn make_text(s: String) -> (r: Value)
    ensures
        doc_of(r) == Doc::Text(s@),
{
    Value::String(s)
}

/// `Value::Array`. Trusted: the value made is the array of the values
/// given, in their order.
#[verifier::external_body]
pub(crate) fn make_list(items: Vec<Value>) -> (r: Value)
    ensures
        doc_of(r) == Doc::List(docs_of(items@)),
{
    Value::Array(items)
}

/// `Value::Object` over `Map::new`. Trusted: the value made is an object
/// without members.
#[verifier::external_body]
pub(crate) fn empty_object() -> (r: Value)
    ensures
        doc_of(r) == Doc::Object(Map::empty()),
{
    Value::Object(serde_json::Map::new())
}

/// `Map::insert` on the members of an object. Trusted: the object comes
/// back with `member` under `key`, in place of what it held there, and its
/// other members as they were.
#[verifier::external_body]
pub(crate) fn with_member(object: Value, key: &str, member: Value) -> (r: Value)
    requires
        doc_of(object) is Object,
    ensures
        doc_of(r) == Doc::Object(doc_of(object)->Object_0.insert(key@, doc_of(member))),
{
    let mut object = object;
    object.as_object_mut().unwrap().insert(key.to_owned(), member);
    object
}

} // verus!
