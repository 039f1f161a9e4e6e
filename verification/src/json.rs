//! JSON objects whose values are all strings, as `serde_json` writes them.
//!
//! Everything in this file that is not proved speaks of `serde_json` alone:
//! what its object type holds, and what text it makes of an object.

use crate::json_text::object_text;
use vstd::prelude::*;

verus! {

/// `serde_json::Map`, the JSON object type.
#[verifier::external_type_specification]
#[verifier::external_body]
#[verifier::reject_recursive_types(K)]
#[verifier::reject_recursive_types(V)]
pub struct ExJsonMap<K, V>(serde_json::Map<K, V>);

/// `serde_json::Value`, a JSON value of any kind.
#[verifier::external_type_specification]
#[verifier::external_body]
pub struct ExJsonValue(serde_json::Value);

/// `serde_json::Error`, what a failed serialization returns.
#[verifier::external_type_specification]
#[verifier::external_body]
pub struct ExJsonError(serde_json::Error);

/// What a `serde_json::Map` holds: for each key its value where that is a
/// string, and `None` where it is a value of another kind.
pub uninterp spec fn members(object: serde_json::Map<String, serde_json::Value>) -> Map<
    Seq<char>,
    Option<Seq<char>>,
>;

/// No members at all.
pub open spec fn no_members() -> Map<Seq<char>, Option<Seq<char>>> {
    Map::empty()
}

/// Every member is a string.
pub open spec fn all_strings(found: Map<Seq<char>, Option<Seq<char>>>) -> bool {
    forall|key: Seq<char>| #[trigger] found.contains_key(key) ==> found[key] is Some
}

/// The members that are strings, as plain text.
pub open spec fn strings_in(found: Map<Seq<char>, Option<Seq<char>>>) -> Map<
    Seq<char>,
    Seq<char>,
> {
    Map::new(
        |key: Seq<char>| found.contains_key(key) && found[key] is Some,
        |key: Seq<char>| found[key]->Some_0,
    )
}

/// Calls `serde_json::Map::new`, which makes an object without members.
#[verifier::external_body]
pub(crate) fn new_object() -> (object: serde_json::Map<String, serde_json::Value>)
    ensures
        members(object) == no_members(),
{
    serde_json::Map::new()
}

/// Calls `serde_json::Map::insert` with a string as the value: the key's value
/// is then that string, whether or not the key was there, and every other
/// member stays as it was.
#[verifier::external_body]
pub(crate) fn insert_string(
    object: &mut serde_json::Map<String, serde_json::Value>,
    key: String,
    text: String,
)
    ensures
        members(*final(object)) == members(*old(object)).insert(key@, Some(text@)),
{
    object.insert(key, serde_json::Value::String(text));
}

/// Calls `serde_json::to_string` on an object whose members are all strings.
///
/// Such an object always has a text: the function fails only where a value's
/// own serialization fails or a key is not a string. The text is compact JSON.
/// Its members stand in the order of their keys, since the object keeps them
/// so; the keys are ordered by their bytes, which in UTF-8 is the order of
/// their characters. In strings, quotes, backslashes and whatever lies below
/// U+0020 are escaped, and nothing else is.
#[verifier::external_body]
pub(crate) fn object_to_text(object: &serde_json::Map<String, serde_json::Value>) -> (text: Result<
    String,
    serde_json::Error,
>)
    requires
        all_strings(members(*object)),
    ensures
        text is Ok,
        text->Ok_0@ == object_text(strings_in(members(*object))),
{
    serde_json::to_string(object)
}

} // verus!
