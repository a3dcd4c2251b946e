//! Reading JSON bodies.
//!
//! Places in a body are named by JSON pointers. A body that is no JSON holds
//! nothing at any place.
use vstd::prelude::*;

verus! {

/// The string at a place in a JSON body, if there is one.
pub uninterp spec fn json_str(body: Seq<u8>, at: Seq<char>) -> Option<Seq<char>>;

/// The truth value at a place in a JSON body, if there is one.
pub uninterp spec fn json_bool(body: Seq<u8>, at: Seq<char>) -> Option<bool>;

/// The compact text of what stands at a place in a JSON body, if anything does.
pub uninterp spec fn json_text(body: Seq<u8>, at: Seq<char>) -> Option<Seq<char>>;

/// The members of this name of the items of the array at a place in a JSON
/// body, each where it is a string; no list when there is no array.
pub uninterp spec fn json_column(body: Seq<u8>, at: Seq<char>, member: Seq<char>) -> Option<
    Seq<Option<Seq<char>>>,
>;

/// The view of an optional string.
pub open spec fn maybe(o: Option<String>) -> Option<Seq<char>> {
    match o {
        Some(s) => Some(s@),
        None => None,
    }
}

/// Views of a list of optional strings.
pub open spec fn maybes(v: Seq<Option<String>>) -> Seq<Option<Seq<char>>> {
    v.map_values(|o: Option<String>| maybe(o))
}

/// `serde_json::from_slice` to a value, `Value::pointer` and `Value::as_str`: a
/// function of body and place alone.
#[verifier::external_body]
pub(crate) fn str_at(body: &[u8], at: &str) -> (r: Option<String>)
    ensures
        maybe(r) == json_str(body@, at@),
{
    let v: serde_json::Value = serde_json::from_slice(body).ok()?;
    v.pointer(at).and_then(|x| x.as_str()).map(|s| s.to_owned())
}

/// `serde_json::from_slice` to a value, `Value::pointer` and `Value::as_bool`: a
/// function of body and place alone.
#[verifier::external_body]
pub(crate) fn bool_at(body: &[u8], at: &str) -> (r: Option<bool>)
    ensures
        r == json_bool(body@, at@),
{
    let v: serde_json::Value = serde_json::from_slice(body).ok()?;
    v.pointer(at).and_then(|x| x.as_bool())
}

/// `serde_json::from_slice` to a value, `Value::pointer` and `Value::to_string`:
/// a function of body and place alone.
#[verifier::external_body]
pub(crate) fn text_at(body: &[u8], at: &str) -> (r: Option<String>)
    ensures
        maybe(r) == json_text(body@, at@),
{
    let v: serde_json::Value = serde_json::from_slice(body).ok()?;
    v.pointer(at).map(|x| x.to_string())
}

/// `serde_json::from_slice` to a value, `Value::pointer`, `Value::as_array` and,
/// of each item, `Value::get` and `Value::as_str`: a function of body, place and
/// member alone.
#[verifier::external_body]
pub(crate) fn column_at(body: &[u8], at: &str, member: &str) -> (r: Option<Vec<Option<String>>>)
    ensures
        match r {
            Some(v) => json_column(body@, at@, member@) == Some(maybes(v@)),
            None => json_column(body@, at@, member@) is None,
        },
{
    let v: serde_json::Value = serde_json::from_slice(body).ok()?;
    let pick = |x: &serde_json::Value| x.get(member).and_then(|d| d.as_str()).map(|s| s.to_owned());
    v.pointer(at).and_then(|a| a.as_array()).map(|a| a.iter().map(pick).collect())
}

} // verus!
