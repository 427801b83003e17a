//! JSON documents, read and built through `serde_json`.

use vstd::prelude::*;
use vstd::string::*;

use crate::text::opt_str_view;

verus! {

/// A JSON document.
pub enum Json {
    Null,
    Bool(bool),
    /// A number without fraction or exponent that fits 64 bits.
    Integer(int),
    /// Any other number, by the bits of its double precision value.
    Float(u64),
    Text(Seq<char>),
    List(Seq<Json>),
    Object(Map<Seq<char>, Json>),
}

/// A JSON document in memory.
#[verifier::external_type_specification]
#[verifier::external_body]
pub struct ExValue(serde_json::Value);

/// Why a text is no JSON document.
#[verifier::external_type_specification]
#[verifier::external_body]
pub struct ExError(serde_json::Error);

/// The document that a [`serde_json::Value`] holds.
pub uninterp spec fn document(v: serde_json::Value) -> Json;

/// The document that [`serde_json::from_str`] reads from a text, if the text is one.
pub uninterp spec fn read_text(text: Seq<char>) -> Option<Json>;

/// The document that [`serde_json::from_slice`] reads from bytes, if they are one.
pub uninterp spec fn read_bytes(bytes: Seq<u8>) -> Option<Json>;

/// The text that [`serde_json::Value`] writes a document as.
pub uninterp spec fn written(doc: Json) -> Seq<char>;

/// Reads a document with [`serde_json::from_str`]. Whether there is one, and which, depends on the
/// text alone.
#[verifier::external_body]
pub(crate) fn from_text(text: &str) -> (r: Result<serde_json::Value, serde_json::Error>)
    ensures
        r is Ok <==> read_text(text@) is Some,
        r is Ok ==> Some(document(r->Ok_0)) == read_text(text@),
{
    serde_json::from_str(text)
}

/// Reads a document with [`serde_json::from_slice`]. Whether there is one, and which, depends on
/// the bytes alone.
#[verifier::external_body]
pub(crate) fn from_bytes(bytes: &[u8]) -> (r: Result<serde_json::Value, serde_json::Error>)
    ensures
        r is Ok <==> read_bytes(bytes@) is Some,
        r is Ok ==> Some(document(r->Ok_0)) == read_bytes(bytes@),
{
    serde_json::from_slice(bytes)
}

/// The member `key` of an object; nothing for another document.
pub open spec fn member(doc: Json, key: Seq<char>) -> Option<Json> {
    match doc {
        Json::Object(m) => if m.contains_key(key) {
            Some(m[key])
        } else {
            None
        },
        _ => None,
    }
}

/// The characters of a text; nothing for another document.
pub open spec fn text_of(doc: Json) -> Option<Seq<char>> {
    match doc {
        Json::Text(s) => Some(s),
        _ => None,
    }
}

/// [`serde_json::Value::get`] with a text looks up a member of an object, and finds nothing in
/// another document.
#[verifier::external_body]
pub(crate) fn get<'a>(v: &'a serde_json::Value, key: &str) -> (r: Option<&'a serde_json::Value>)
    ensures
        match r {
            Some(m) => member(document(*v), key@) == Some(document(*m)),
            None => member(document(*v), key@) is None,
        },
{
    v.get(key)
}

/// [`serde_json::Value::as_str`] is the text that the document is, if it is one.
pub assume_specification[ serde_json::Value::as_str ](v: &serde_json::Value) -> (r: Option<&str>)
    ensures
        match r {
            Some(s) => document(*v) == Json::Text(s@),
            None => !(document(*v) is Text),
        },
;

/// [`serde_json::Value::as_i64`] is the integer that the document is, if it is one that fits.
pub assume_specification[ serde_json::Value::as_i64 ](v: &serde_json::Value) -> (r: Option<i64>)
    ensures
        match r {
            Some(n) => document(*v) == Json::Integer(n as int),
            None => document(*v) matches Json::Integer(n) ==> !(i64::MIN <= n <= i64::MAX),
        },
;

/// [`serde_json::Value::as_u64`] is the integer that the document is, if it is one that fits.
pub assume_specification[ serde_json::Value::as_u64 ](v: &serde_json::Value) -> (r: Option<u64>)
    ensures
        match r {
            Some(n) => document(*v) == Json::Integer(n as int),
            None => document(*v) matches Json::Integer(n) ==> !(0 <= n <= u64::MAX),
        },
;

/// [`serde_json::Value::as_array`] is the list that the document is, if it is one.
pub assume_specification[ serde_json::Value::as_array ](v: &serde_json::Value) -> (r: Option<
    &Vec<serde_json::Value>,
>)
    ensures
        match r {
            Some(items) => document(*v) == Json::List(
                items@.map_values(|item: serde_json::Value| document(item)),
            ),
            None => !(document(*v) is List),
        },
;

/// The members of an object; none for another document.
pub open spec fn members(doc: Json) -> Map<Seq<char>, Json> {
    match doc {
        Json::Object(m) => m,
        _ => Map::empty(),
    }
}

/// An object whose members are texts.
pub open spec fn holds_texts(doc: Json) -> bool {
    doc is Object && forall|k: Seq<char>|
        members(doc).contains_key(k) ==> (#[trigger] members(doc)[k]) is Text
}

/// The document `null`, as [`serde_json::Value::default`] documents.
#[verifier::external_body]
pub(crate) fn null() -> (r: serde_json::Value)
    ensures
        document(r) == Json::Null,
{
    serde_json::Value::default()
}

/// A text as a document, by the conversion of [`serde_json::Value`] from `&str`.
#[verifier::external_body]
pub(crate) fn text_value(s: &str) -> (r: serde_json::Value)
    ensures
        document(r) == Json::Text(s@),
{
    serde_json::Value::from(s)
}

/// Writes a member of an object by indexing a [`serde_json::Value`] with a text: `null` counts as
/// an object without members, and any other document but an object makes the call panic.
#[verifier::external_body]
pub(crate) fn put(v: &mut serde_json::Value, key: &str, value: serde_json::Value)
    requires
        document(*old(v)) is Null || document(*old(v)) is Object,
    ensures
        document(*final(v)) == Json::Object(
            members(document(*old(v))).insert(key@, document(value)),
        ),
{
    v[key] = value;
}

/// Whether an object has the key that the reader reserves: with the feature `raw_value`,
/// [`serde_json::from_str`] reads an object that starts with it as the document that is written
/// inside the member.
pub open spec fn has_reserved_key(doc: Json) -> bool {
    members(doc).contains_key("$serde_json::private::RawValue"@)
}

/// An object without the reserved key whose members are texts or objects of texts without the
/// reserved key.
pub open spec fn reads_back(doc: Json) -> bool {
    &&& doc is Object
    &&& !has_reserved_key(doc)
    &&& forall|k: Seq<char>|
        members(doc).contains_key(k) ==> ((#[trigger] members(doc)[k]) is Text || holds_texts(
            members(doc)[k],
        ) && !has_reserved_key(members(doc)[k]))
}

/// The reserved key has 30 characters.
pub proof fn lemma_reserved_key()
    ensures
        "$serde_json::private::RawValue"@.len() == 30,
{
    reveal_strlit("$serde_json::private::RawValue");
}

/// Writes a document as compact text, by the `Display` of [`serde_json::Value`]. The text depends on
/// the document alone. [`serde_json::from_str`] reads an object of texts, or of such objects and texts,
/// back from it if no object has the reserved key `$serde_json::private::RawValue`. Of other
/// documents nothing is claimed here.
#[verifier::external_body]
pub(crate) fn to_text(v: &serde_json::Value) -> (r: String)
    ensures
        r@ == written(document(*v)),
        reads_back(document(*v)) ==> read_text(r@) == Some(document(*v)),
{
    v.to_string()
}

/// What stands under `key` in the object, if there is one.
pub open spec fn member_of(doc: Option<Json>, key: Seq<char>) -> Option<Json> {
    match doc {
        Some(d) => member(d, key),
        None => None,
    }
}

/// The characters of the text, if there is one.
pub open spec fn text_in(doc: Option<Json>) -> Option<Seq<char>> {
    match doc {
        Some(d) => text_of(d),
        None => None,
    }
}

/// The document behind an optional reference.
pub open spec fn opt_document(v: Option<&serde_json::Value>) -> Option<Json> {
    match v {
        Some(d) => Some(document(*d)),
        None => None,
    }
}

/// What stands under `key` in the object, if there is one.
pub(crate) fn get_in<'a>(v: Option<&'a serde_json::Value>, key: &str) -> (r: Option<
    &'a serde_json::Value,
>)
    ensures
        opt_document(r) == member_of(opt_document(v), key@),
{
    match v {
        Some(d) => get(d, key),
        None => None,
    }
}

/// The text, if there is one.
pub(crate) fn get_text<'a>(v: Option<&'a serde_json::Value>) -> (r: Option<&'a str>)
    ensures
        opt_str_view(r) == text_in(opt_document(v)),
{
    match v {
        Some(d) => d.as_str(),
        None => None,
    }
}

/// The integer, if there is one and it fits 64 bits with a sign.
pub open spec fn i64_in(doc: Option<Json>) -> Option<i64> {
    match doc {
        Some(Json::Integer(n)) => if i64::MIN <= n <= i64::MAX {
            Some(n as i64)
        } else {
            None
        },
        _ => None,
    }
}

/// The integer, if there is one and it fits 64 bits without a sign.
pub open spec fn u64_in(doc: Option<Json>) -> Option<u64> {
    match doc {
        Some(Json::Integer(n)) => if 0 <= n <= u64::MAX {
            Some(n as u64)
        } else {
            None
        },
        _ => None,
    }
}

/// The integer, if there is one and it fits 64 bits with a sign.
pub(crate) fn get_i64(v: Option<&serde_json::Value>) -> (r: Option<i64>)
    ensures
        r == i64_in(opt_document(v)),
{
    match v {
        Some(d) => d.as_i64(),
        None => None,
    }
}

/// The integer, if there is one and it fits 64 bits without a sign.
pub(crate) fn get_u64(v: Option<&serde_json::Value>) -> (r: Option<u64>)
    ensures
        r == u64_in(opt_document(v)),
{
    match v {
        Some(d) => d.as_u64(),
        None => None,
    }
}

/// The document behind an optional value.
pub open spec fn owned_document(v: Option<serde_json::Value>) -> Option<Json> {
    match v {
        Some(d) => Some(document(d)),
        None => None,
    }
}

/// The document that the bytes hold, if they hold one.
pub(crate) fn parse(bytes: &[u8]) -> (r: Option<serde_json::Value>)
    ensures
        owned_document(r) == read_bytes(bytes@),
{
    match from_bytes(bytes) {
        Ok(v) => Some(v),
        Err(_) => None,
    }
}

/// A reference to the document, if there is one.
pub(crate) fn borrow<'a>(v: &'a Option<serde_json::Value>) -> (r: Option<&'a serde_json::Value>)
    ensures
        opt_document(r) == owned_document(*v),
{
    match v {
        Some(d) => Some(d),
        None => None,
    }
}

} // verus!
