//! Trusted boundary to the `json` crate: the declared value type and the two
//! calls the library makes, rendering a value to text and parsing text.

use vstd::prelude::*;

verus! {

/// `json::JsonValue`, declared so that library signatures can carry it.
/// A value of it is opaque here; only the `json` crate reads it.
#[verifier::external_type_specification]
#[verifier::external_body]
pub struct ExJsonValue(json::JsonValue);

/// The JSON text that rendering a value produces, as bytes. Rendering
/// depends on the value alone, so the text has a name; what the bytes are
/// on a given value only the `json` crate says.
pub uninterp spec fn json_text_of(value: json::JsonValue) -> Seq<u8>;

/// Whether the JSON parser accepts these bytes as the text of a value.
/// Acceptance depends on the bytes alone, so it has a name; which bytes are
/// accepted only the `json` crate says.
pub uninterp spec fn json_accepts(text: Seq<u8>) -> bool;

/// Relies on json::JsonValue::dump, which renders the value as JSON text;
/// the result is that rendering, named `json_text_of`.
#[verifier::external_body]
pub fn json_dump(value: &json::JsonValue) -> (r: Vec<u8>)
    ensures
        r@ == json_text_of(*value),
{
    value.dump().into_bytes()
}

/// Relies on json::parse, which either parses the text into a value or
/// rejects it; whether it parses is named `json_accepts`. A rejection is
/// carried back as the error's display text.
#[verifier::external_body]
pub fn json_parse(text: &Vec<u8>) -> (r: Result<json::JsonValue, Vec<u8>>)
    ensures
        r is Ok <==> json_accepts(text@),
{
    match json::parse(&String::from_utf8_lossy(text.as_slice())) {
        Ok(v) => Ok(v),
        Err(e) => Err(e.to_string().into_bytes()),
    }
}

} // verus!
