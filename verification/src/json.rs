//! The one JSON value type that crosses this crate's boundary, declared so
//! that verified code can carry it through, and the encoding call the
//! request builders make on it. The encoding is a pure function of the
//! value, so its text and its success are named and every caller's contract
//! can speak of them exactly.

use vstd::prelude::*;

verus! {

#[verifier::external_type_specification]
#[verifier::external_body]
pub struct ExValue(serde_json::Value);

/// The JSON text bytes a value renders to; a pure function of the value.
pub uninterp spec fn json_bytes_of(v: serde_json::Value) -> Seq<u8>;

/// Whether rendering the value to JSON succeeds; a pure function of the
/// value.
pub uninterp spec fn json_ok_of(v: serde_json::Value) -> bool;

/// Relies on serde_json::to_vec: renders the value as JSON text bytes, a
/// pure function of the value alone, and reports the serializer's error as
/// its message.
#[verifier::external_body]
pub fn json_to_bytes(value: &serde_json::Value) -> (r: Result<Vec<u8>, String>)
    ensures
        (r is Ok) == json_ok_of(*value),
        r matches Ok(b) ==> b@ == json_bytes_of(*value),
{
    match serde_json::to_vec(value) {
        Ok(b) => Ok(b),
        Err(e) => Err(e.to_string()),
    }
}

} // verus!
