//! The trusted boundary to serde_json: an ordered JSON object, its parse and
//! its pretty re-serialization. Everything the adapter logic states about
//! JSON content goes through the names and contracts declared here.
use vstd::prelude::*;

verus! {

#[verifier::external_type_specification]
#[verifier::external_body]
#[verifier::reject_recursive_types(K)]
#[verifier::reject_recursive_types(V)]
pub struct ExMap<K, V>(serde_json::Map<K, V>);

#[verifier::external_type_specification]
#[verifier::external_body]
pub struct ExValue(serde_json::Value);

/// The keys of a parsed JSON object, in the order serde_json keeps them.
pub uninterp spec fn obj_keys(m: serde_json::Map<String, serde_json::Value>) -> Seq<Seq<char>>;

/// The value of field `k` of a parsed JSON object, when that field is present
/// and holds a JSON string.
pub uninterp spec fn obj_str_field(
    m: serde_json::Map<String, serde_json::Value>,
    k: Seq<char>,
) -> Option<Seq<char>>;

/// The rendering serde_json's pretty printer gives the object: its fields
/// in order, two-space indentation. A function of the map alone.
pub uninterp spec fn pretty_of(m: serde_json::Map<String, serde_json::Value>) -> Seq<char>;

/// The value of field `k` of a parsed JSON object, rendered as JSON text,
/// when the field is present; covers fields of every type, not only
/// strings. A function of the map alone.
pub uninterp spec fn obj_field_json(
    m: serde_json::Map<String, serde_json::Value>,
    k: Seq<char>,
) -> Option<Seq<char>>;

/// The keys of the object that `s` parses as, in document order, when `s` is
/// the text of a JSON object.
pub uninterp spec fn json_keys(s: Seq<char>) -> Option<Seq<Seq<char>>>;

/// The string value of field `k` of the object that `s` parses as, when `s`
/// is the text of a JSON object with such a field holding a JSON string.
pub uninterp spec fn json_str_field(s: Seq<char>, k: Seq<char>) -> Option<Seq<char>>;

/// The value of field `k` of the object that `s` parses as, rendered as
/// JSON text, when the field is present.
pub uninterp spec fn json_field_json(s: Seq<char>, k: Seq<char>) -> Option<Seq<char>>;

/// Relies on serde_json::from_str for Map<String, Value>: parsing succeeds
/// exactly on the text of a JSON object, and yields that object's fields in
/// document order. The error is carried as the parser's message.
#[verifier::external_body]
pub(crate) fn parse_obj(s: &str) -> (r: Result<serde_json::Map<String, serde_json::Value>, String>)
    ensures
        (r is Ok) <==> (json_keys(s@) is Some),
        r matches Ok(m) ==> obj_keys(m) == json_keys(s@).unwrap() && (forall|k: Seq<char>|
            obj_str_field(m, k) == json_str_field(s@, k)) && (forall|k: Seq<char>|
            obj_field_json(m, k) == json_field_json(s@, k)),
        r is Err ==> (forall|k: Seq<char>| json_str_field(s@, k) is None),
        r is Err ==> (forall|k: Seq<char>| json_field_json(s@, k) is None),
{
    serde_json::from_str::<serde_json::Map<String, serde_json::Value>>(s).map_err(|e| e.to_string())
}

/// Relies on Map::get and Value::as_str: looks a field up and hands its
/// string value out, if the field is present and holds a string.
#[verifier::external_body]
pub(crate) fn obj_get_str(m: &serde_json::Map<String, serde_json::Value>, k: &str) -> (r: Option<String>)
    ensures
        r matches Some(v) ==> obj_str_field(*m, k@) == Some(v@),
        r is None ==> obj_str_field(*m, k@) is None,
{
    m.get(k).and_then(serde_json::Value::as_str).map(str::to_owned)
}

/// Relies on Map::insert with serde_json's order-preserving map: a key that
/// is already present keeps its position and takes the new value; a new key
/// is appended at the end. Other fields are untouched.
#[verifier::external_body]
pub(crate) fn obj_insert_str(m: &mut serde_json::Map<String, serde_json::Value>, k: &str, v: &str)
    ensures
        obj_str_field(*final(m), k@) == Some(v@),
        forall|k2: Seq<char>|
            k2 != k@ ==> obj_str_field(*final(m), k2) == obj_str_field(*old(m), k2),
        forall|k2: Seq<char>|
            k2 != k@ ==> obj_field_json(*final(m), k2) == obj_field_json(*old(m), k2),
        obj_keys(*old(m)).contains(k@) ==> obj_keys(*final(m)) == obj_keys(*old(m)),
        !obj_keys(*old(m)).contains(k@) ==> obj_keys(*final(m)) == obj_keys(*old(m)).push(k@),
{
    m.insert(k.to_owned(), serde_json::Value::String(v.to_owned()));
}

/// Relies on serde_json::to_string_pretty: serializing a string-keyed map
/// into a String cannot fail, the rendering is a function of the map alone,
/// and it is again the text of a JSON object with the same fields in the
/// same order, so reparsing it yields the fields back. The reparse clauses
/// lean on the parser's recursion limit not being reached; every map this
/// crate hands in came out of the same parser (which enforces that limit)
/// with only string fields inserted since, so the limit cannot be exceeded
/// here.
#[verifier::external_body]
pub(crate) fn to_pretty(m: &serde_json::Map<String, serde_json::Value>) -> (r: Result<
    String,
    String,
>)
    ensures
        r is Ok,
        r matches Ok(out) ==> out@ == pretty_of(*m) && json_keys(out@) == Some(obj_keys(*m)) && (
        forall|k: Seq<char>| json_str_field(out@, k) == obj_str_field(*m, k)) && (forall|
            k: Seq<char>,
        |
            json_field_json(out@, k) == obj_field_json(*m, k)),
{
    serde_json::to_string_pretty(m).map_err(|e| e.to_string())
}

} // verus!
