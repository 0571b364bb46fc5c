//! Trusted boundary around the external JSON codec (`serde_json`).
//!
//! The protocol layer treats a decoded JSON document as an opaque container
//! of plain values: `serde_json::Value` is declared but never inspected by
//! verified code. What a value holds is modeled by the uninterpreted content
//! functions below ([`value_bytes`], [`parsed_value`], [`field_of`],
//! [`str_of`], [`int_of`], [`obj_entries`]); each wrapper states over them
//! what the called `serde_json` function does, as its source shows.

use vstd::prelude::*;

verus! {

#[verifier::external_type_specification]
#[verifier::external_body]
pub struct ExValue(serde_json::Value);

#[verifier::external_type_specification]
#[verifier::external_body]
#[verifier::reject_recursive_types(K)]
#[verifier::reject_recursive_types(V)]
pub struct ExMap<K, V>(serde_json::Map<K, V>);

/// The rendering of a value as JSON text bytes (`serde_json::to_vec`).
pub uninterp spec fn value_bytes(v: serde_json::Value) -> Seq<u8>;

/// The value that the codec reads out of the given bytes, if any
/// (`serde_json::from_slice::<serde_json::Value>`).
pub uninterp spec fn parsed_value(s: Seq<u8>) -> Option<serde_json::Value>;

/// The member of the given name, when the value is an object that has one
/// (`serde_json::Value::get`).
pub uninterp spec fn field_of(v: serde_json::Value, key: Seq<char>) -> Option<serde_json::Value>;

/// The text held by the value, when it is a string (`serde_json::Value::as_str`).
pub uninterp spec fn str_of(v: serde_json::Value) -> Option<Seq<char>>;

/// The integer held by the value, when it is an integer number that fits
/// an `i64` (`serde_json::Value::as_i64`).
pub uninterp spec fn int_of(v: serde_json::Value) -> Option<i64>;

/// The entries held by an object map, keyed by the key text
/// (`serde_json::Map<String, Value>`).
pub uninterp spec fn obj_entries(m: serde_json::Map<String, serde_json::Value>) -> Map<
    Seq<char>,
    serde_json::Value,
>;

/// The codec reads its own rendering of `v` back as `v` itself. This holds of
/// any document that stays within the reader's nesting limit; it is the
/// hypothesis under which the round-trip law is stated.
pub open spec fn value_round_trips(v: serde_json::Value) -> bool {
    parsed_value(value_bytes(v)) == Some(v)
}

/// Diagnostic data echoes the given bytes: it holds a string value carrying
/// their lossy text.
pub open spec fn data_echoes(data: Option<serde_json::Value>, bytes: Seq<u8>) -> bool {
    match data {
        Some(dv) => str_of(dv) == Some(lossy_text_of(bytes)),
        None => false,
    }
}

/// Relies on `serde_json::to_vec`: the rendering is a function of the value
/// alone, and it is JSON text, hence valid UTF-8 (`to_string` reads the very
/// same bytes back as a `String`). Rendering a `Value` cannot fail (its maps
/// are keyed by strings), so the error arm is never taken.
#[verifier::external_body]
pub(crate) fn value_to_bytes(v: &serde_json::Value) -> (r: Vec<u8>)
    ensures
        r@ == value_bytes(*v),
        vstd::utf8::valid_utf8(r@),
{
    match serde_json::to_vec(v) {
        Ok(b) => b,
        Err(_) => Vec::new(),
    }
}

/// Relies on `serde_json::from_slice::<Value>`: the result is a function of
/// the input bytes alone; invalid JSON (or invalid UTF-8) yields no value.
#[verifier::external_body]
pub(crate) fn bytes_to_value(s: &[u8]) -> (r: Option<serde_json::Value>)
    ensures
        r == parsed_value(s@),
{
    serde_json::from_slice::<serde_json::Value>(s).ok()
}

/// Relies on `serde_json::Value::get` with a string index: on an object it
/// looks the key up, on anything else it returns nothing.
#[verifier::external_body]
pub(crate) fn value_field<'a>(v: &'a serde_json::Value, key: &str) -> (r: Option<&'a serde_json::Value>)
    ensures
        match r {
            Some(f) => field_of(*v, key@) == Some(*f),
            None => field_of(*v, key@) is None,
        },
{
    v.get(key)
}

/// Relies on `serde_json::Value::as_str`: some text exactly when the value is
/// a string; the text is copied out with `str::to_owned`.
#[verifier::external_body]
pub(crate) fn value_as_string(v: &serde_json::Value) -> (r: Option<String>)
    ensures
        match r {
            Some(s) => str_of(*v) == Some(s@),
            None => str_of(*v) is None,
        },
{
    v.as_str().map(|s| s.to_owned())
}

/// Relies on `serde_json::Value::as_i64`.
#[verifier::external_body]
pub(crate) fn value_as_i64(v: &serde_json::Value) -> (r: Option<i64>)
    ensures
        r == int_of(*v),
{
    v.as_i64()
}

/// Relies on `serde_json::Value`'s `Clone`: the copy equals the original.
#[verifier::external_body]
pub(crate) fn value_clone(v: &serde_json::Value) -> (r: serde_json::Value)
    ensures
        r == *v,
{
    v.clone()
}

/// Relies on `serde_json::Value::String`: a string value holding exactly the
/// given text; it is no object and no number, and it survives a rendering
/// and re-reading unchanged.
#[verifier::external_body]
pub(crate) fn string_value(s: String) -> (v: serde_json::Value)
    ensures
        str_of(v) == Some(s@),
        int_of(v) is None,
        value_round_trips(v),
{
    serde_json::Value::String(s)
}

/// Relies on `serde_json::Value::Number` over `serde_json::Number::from` for
/// an `i64`: an integer value that `as_i64` reads back exactly; it is no
/// string, and it survives a rendering and re-reading unchanged.
#[verifier::external_body]
pub(crate) fn i64_value(i: i64) -> (v: serde_json::Value)
    ensures
        int_of(v) == Some(i),
        str_of(v) is None,
        value_round_trips(v),
{
    serde_json::Value::Number(serde_json::Number::from(i))
}

/// The text that `String::from_utf8_lossy` reads out of the bytes; used only
/// to echo offending input as diagnostic data.
pub uninterp spec fn lossy_text_of(s: Seq<u8>) -> Seq<char>;

/// Relies on `String::from_utf8_lossy`: the text is a function of the bytes
/// alone.
#[verifier::external_body]
pub(crate) fn lossy_text(s: &[u8]) -> (r: String)
    ensures
        r@ == lossy_text_of(s@),
{
    String::from_utf8_lossy(s).into_owned()
}

/// The model of an object map with no entries.
pub open spec fn empty_entries() -> Map<Seq<char>, serde_json::Value> {
    Map::empty()
}

/// Relies on `serde_json::Map::new`: an empty map.
#[verifier::external_body]
pub(crate) fn map_new() -> (m: serde_json::Map<String, serde_json::Value>)
    ensures
        obj_entries(m) == empty_entries(),
{
    serde_json::Map::new()
}

/// Relies on `serde_json::Map::insert`: the entry is added under the key's
/// text, replacing an earlier one; the displaced value is dropped.
#[verifier::external_body]
pub(crate) fn map_insert(
    m: &mut serde_json::Map<String, serde_json::Value>,
    k: String,
    v: serde_json::Value,
)
    ensures
        obj_entries(*final(m)) == obj_entries(*old(m)).insert(k@, v),
{
    let _ = m.insert(k, v);
}

/// Relies on `serde_json::Value::Object` and `serde_json::Value::get`: field
/// lookup on the object returns exactly the map's entries; the object is no
/// string and no number.
#[verifier::external_body]
pub(crate) fn object_value(m: serde_json::Map<String, serde_json::Value>) -> (v: serde_json::Value)
    ensures
        forall|k: Seq<char>|
            field_of(v, k) == if obj_entries(m).dom().contains(k) {
                Some(obj_entries(m)[k])
            } else {
                None::<serde_json::Value>
            },
        str_of(v) is None,
        int_of(v) is None,
{
    serde_json::Value::Object(m)
}

} // verus!
