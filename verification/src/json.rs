//! Reading JSON documents, as far as the texts under their object keys go.

use vstd::prelude::*;
use vstd::utf8::*;

verus! {

/// A parsed JSON value of `serde_json`.
#[verifier::external_type_specification]
#[verifier::external_body]
pub struct ExValue(serde_json::Value);

/// What a JSON value holds under each path of object keys: the text, where there is a
/// string, and `None` where there is a value of another kind. The empty path leads to
/// the value itself; a path that leads nowhere is not in the map.
pub uninterp spec fn members(value: serde_json::Value) -> Map<Seq<Seq<char>>, Option<Seq<char>>>;

/// What `serde_json::from_str` reads a text as, or `None` when it is no JSON document.
pub uninterp spec fn document(raw: Seq<char>) -> Option<Map<Seq<Seq<char>>, Option<Seq<char>>>>;

/// What `serde_json::from_slice` reads some bytes as, or `None` when they are no JSON
/// document.
pub uninterp spec fn bytes_document(raw: Seq<u8>) -> Option<
    Map<Seq<Seq<char>>, Option<Seq<char>>>,
>;

/// The paths of `m` that go through `key`, from there on.
pub open spec fn under(
    m: Map<Seq<Seq<char>>, Option<Seq<char>>>,
    key: Seq<char>,
) -> Map<Seq<Seq<char>>, Option<Seq<char>>> {
    Map::new(
        |path: Seq<Seq<char>>| m.dom().contains(seq![key] + path),
        |path: Seq<Seq<char>>| m[seq![key] + path],
    )
}

/// What `m` holds under `key`, if anything.
pub open spec fn member(
    m: Map<Seq<Seq<char>>, Option<Seq<char>>>,
    key: Seq<char>,
) -> Option<Map<Seq<Seq<char>>, Option<Seq<char>>>> {
    if m.dom().contains(seq![key]) {
        Some(under(m, key))
    } else {
        None
    }
}

/// `serde_json::from_str` into a `Value`, its error dropped. Whether the text is a JSON
/// document, and what it then holds, depends on the text alone.
#[verifier::external_body]
pub(crate) fn parse_text(raw: &str) -> (r: Option<serde_json::Value>)
    ensures
        r matches Some(value) ==> document(raw@) == Some(members(value)),
        r is None ==> document(raw@) is None,
{
    serde_json::from_str(raw).ok()
}

/// `serde_json::from_slice` into a `Value`, its error dropped. Whether the bytes are a
/// JSON document, and what it then holds, depends on the bytes alone; valid UTF-8 is
/// read as the text that it encodes.
#[verifier::external_body]
pub(crate) fn parse_bytes(raw: &Vec<u8>) -> (r: Option<serde_json::Value>)
    ensures
        r matches Some(value) ==> bytes_document(raw@) == Some(members(value)),
        r is None ==> bytes_document(raw@) is None,
        valid_utf8(raw@) ==> (match r {
            Some(value) => document(decode_utf8(raw@)) == Some(members(value)),
            None => document(decode_utf8(raw@)) is None,
        }),
{
    serde_json::from_slice(raw).ok()
}

/// `serde_json::Value::get` with a string: what an object holds under that key. Another
/// kind of value holds nothing.
#[verifier::external_body]
pub(crate) fn get<'a>(value: &'a serde_json::Value, key: &str) -> (r: Option<
    &'a serde_json::Value,
>)
    ensures
        r matches Some(inner) ==> member(members(*value), key@) == Some(members(*inner)),
        r is None ==> member(members(*value), key@) is None,
{
    value.get(key)
}

/// `serde_json::Value::as_str`: the text of a string, nothing of another kind of value.
#[verifier::external_body]
pub(crate) fn as_text<'a>(value: &'a serde_json::Value) -> (r: Option<&'a str>)
    ensures
        r.deep_view() == members(*value)[Seq::<Seq<char>>::empty()],
{
    value.as_str()
}

/// What stands under a key is there exactly when the key is, and a path in it is the path
/// through the key in the whole.
pub proof fn law_members_are_found_by_path(
    m: Map<Seq<Seq<char>>, Option<Seq<char>>>,
    key: Seq<char>,
    path: Seq<Seq<char>>,
)
    ensures
        member(m, key) is Some <==> m.dom().contains(seq![key]),
        member(m, key) matches Some(inner) ==> {
            &&& inner.dom().contains(path) <==> m.dom().contains(seq![key] + path)
            &&& m.dom().contains(seq![key] + path) ==> inner[path] == m[seq![key] + path]
        },
{
}

} // verus!
