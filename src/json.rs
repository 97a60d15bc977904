use vstd::prelude::*;

verus! {

/// The mathematical content of a JSON document.
pub enum JsonTree {
    Null,
    Bool(bool),
    /// A number written without fraction or exponent.
    Int(int),
    /// Any other number.
    Float,
    Str(Seq<char>),
    Array(Seq<JsonTree>),
    /// Members by name; a repeated name keeps its last value.
    Object(Map<Seq<char>, JsonTree>),
}

#[verifier::external_type_specification]
#[verifier::external_body]
pub struct ExValue(serde_json::Value);

/// What a JSON value holds.
pub uninterp spec fn json_tree(v: serde_json::Value) -> JsonTree;

/// The document that a text holds, if it is one JSON value (with any
/// whitespace around its tokens).
pub uninterp spec fn json_parse(s: Seq<char>) -> Option<JsonTree>;

/// Relies on `serde_json::from_str::<Value>`: reads a whole text as one JSON
/// value, or fails.
#[verifier::external_body]
pub(crate) fn parse_json(text: &str) -> (r: Option<serde_json::Value>)
    ensures
        match r {
            Some(v) => json_parse(text@) == Some(json_tree(v)),
            None => json_parse(text@) is None,
        },
{
    serde_json::from_str::<serde_json::Value>(text).ok()
}

/// Relies on `serde_json::Value::as_array`: the elements of an array, in order.
#[verifier::external_body]
pub(crate) fn as_array(v: &serde_json::Value) -> (r: Option<&Vec<serde_json::Value>>)
    ensures
        match json_tree(*v) {
            JsonTree::Array(items) => r matches Some(a) && a@.len() == items.len() && forall|i: int|
                0 <= i < items.len() ==> json_tree(#[trigger] a@[i]) == items[i],
            _ => r is None,
        },
{
    v.as_array()
}

/// Relies on `serde_json::Value::is_object`.
#[verifier::external_body]
pub(crate) fn is_object(v: &serde_json::Value) -> (r: bool)
    ensures
        r == json_tree(*v) is Object,
{
    v.is_object()
}

/// Relies on `serde_json::Value::get` with a member name: the member's value,
/// if `v` is an object that has it.
#[verifier::external_body]
pub(crate) fn member<'a>(v: &'a serde_json::Value, name: &str) -> (r: Option<&'a serde_json::Value>)
    ensures
        match json_tree(*v) {
            JsonTree::Object(m) => if m.contains_key(name@) {
                r matches Some(x) && json_tree(*x) == m[name@]
            } else {
                r is None
            },
            _ => r is None,
        },
{
    v.get(name)
}

/// Relies on `serde_json::Value::as_str`.
#[verifier::external_body]
pub(crate) fn as_str(v: &serde_json::Value) -> (r: Option<&str>)
    ensures
        match json_tree(*v) {
            JsonTree::Str(s) => r matches Some(x) && x@ == s,
            _ => r is None,
        },
{
    v.as_str()
}

/// Relies on `serde_json::Value::as_bool`.
#[verifier::external_body]
pub(crate) fn as_bool(v: &serde_json::Value) -> (r: Option<bool>)
    ensures
        match json_tree(*v) {
            JsonTree::Bool(b) => r == Some(b),
            _ => r is None,
        },
{
    v.as_bool()
}

/// Relies on `serde_json::Value::as_u64`: an integer that fits in `u64`.
#[verifier::external_body]
pub(crate) fn as_u64(v: &serde_json::Value) -> (r: Option<u64>)
    ensures
        match json_tree(*v) {
            JsonTree::Int(n) => if 0 <= n <= u64::MAX {
                r == Some(n as u64)
            } else {
                r is None
            },
            _ => r is None,
        },
{
    v.as_u64()
}

/// Relies on `serde_json::Value::is_null`.
#[verifier::external_body]
pub(crate) fn is_null(v: &serde_json::Value) -> (r: bool)
    ensures
        r == json_tree(*v) is Null,
{
    v.is_null()
}

} // verus!
