//! JSON documents of the crate `serde_json`, as far as the line counts are
//! read from them. What a document holds is known through the names below
//! alone.

use vstd::prelude::*;

verus! {

/// A JSON value of `serde_json`.
#[verifier::external_type_specification]
#[verifier::external_body]
pub struct ExValue(serde_json::Value);

/// A JSON object of `serde_json`.
#[verifier::external_type_specification]
#[verifier::external_body]
#[verifier::reject_recursive_types(K)]
#[verifier::reject_recursive_types(V)]
pub struct ExMap<K, V>(serde_json::Map<K, V>);

/// The error of `serde_json`.
#[verifier::external_type_specification]
#[verifier::external_body]
pub struct ExError(serde_json::Error);

/// The members of a JSON object: each key with its value, in the order in
/// which the object hands them out.
pub uninterp spec fn members(object: serde_json::Map<String, serde_json::Value>) -> Seq<
    (Seq<char>, serde_json::Value),
>;

/// The JSON object that a value is, if it is one.
pub uninterp spec fn as_object(value: serde_json::Value) -> Option<
    serde_json::Map<String, serde_json::Value>,
>;

/// The number that a value is, if it is a whole number that is not negative
/// and fits in 64 bits.
pub uninterp spec fn as_u64(value: serde_json::Value) -> Option<u64>;

/// The truth value that a value is, if it is one.
pub uninterp spec fn as_bool(value: serde_json::Value) -> Option<bool>;

/// The JSON object that a text is, if it is one.
pub uninterp spec fn document(text: Seq<char>) -> Option<
    serde_json::Map<String, serde_json::Value>,
>;

/// The value that stands under a key among the members of an object: that of
/// the first member with this key.
pub open spec fn member(entries: Seq<(Seq<char>, serde_json::Value)>, key: Seq<char>) -> Option<
    serde_json::Value,
>
    decreases entries.len(),
{
    if entries.len() == 0 {
        None
    } else if entries.first().0 == key {
        Some(entries.first().1)
    } else {
        member(entries.drop_first(), key)
    }
}

/// `serde_json::from_str` for a JSON object: the object that the text is, or
/// the error where the text is no JSON object.
#[verifier::external_body]
pub(crate) fn object_from_str(text: &str) -> (r: Result<
    serde_json::Map<String, serde_json::Value>,
    serde_json::Error,
>)
    ensures
        r.is_ok() == document(text@).is_some(),
        r matches Ok(object) ==> document(text@) == Some(object),
{
    serde_json::from_str::<serde_json::Map<String, serde_json::Value>>(text)
}

/// `serde_json::Map::iter`: the members of the object, each key with its
/// value, in the order in which the object hands them out.
#[verifier::external_body]
pub(crate) fn object_members<'a>(object: &'a serde_json::Map<String, serde_json::Value>) -> (r: Vec<
    (&'a String, &'a serde_json::Value),
>)
    ensures
        r@.len() == members(*object).len(),
        forall|i: int|
            0 <= i < r@.len() ==> (#[trigger] r@[i]).0@ == members(*object)[i].0 && *r@[i].1
                == members(*object)[i].1,
{
    object.iter().collect()
}

/// `serde_json::Map::get`: the value that stands under the key, if the object
/// has a member with this key.
#[verifier::external_body]
pub(crate) fn object_get<'a>(
    object: &'a serde_json::Map<String, serde_json::Value>,
    key: &str,
) -> (r: Option<&'a serde_json::Value>)
    ensures
        r.is_some() == member(members(*object), key@).is_some(),
        r matches Some(value) ==> member(members(*object), key@) == Some(*value),
{
    object.get(key)
}

/// `serde_json::Value::as_object`: the object that the value is, if it is one.
#[verifier::external_body]
pub(crate) fn value_as_object<'a>(value: &'a serde_json::Value) -> (r: Option<
    &'a serde_json::Map<String, serde_json::Value>,
>)
    ensures
        r.is_some() == as_object(*value).is_some(),
        r matches Some(object) ==> as_object(*value) == Some(*object),
{
    value.as_object()
}

/// `serde_json::Value::as_u64`: the number that the value is, if it is a
/// whole number that is not negative and fits in 64 bits.
#[verifier::external_body]
pub(crate) fn value_as_u64(value: &serde_json::Value) -> (r: Option<u64>)
    ensures
        r == as_u64(*value),
{
    value.as_u64()
}

/// `serde_json::Value::as_bool`: the truth value that the value is, if it is
/// one.
#[verifier::external_body]
pub(crate) fn value_as_bool(value: &serde_json::Value) -> (r: Option<bool>)
    ensures
        r == as_bool(*value),
{
    value.as_bool()
}

} // verus!
