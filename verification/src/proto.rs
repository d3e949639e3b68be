//! What the messages take from the `protobuf` runtime crate: its error types
//! and its UTF-8 check on string payloads.
use vstd::prelude::*;
use vstd::utf8::*;

verus! {

/// `protobuf::ParseError`: the bytes could not be read as the message.
#[verifier::external_type_specification]
#[verifier::external_body]
pub struct ExParseError(protobuf::ParseError);

/// `protobuf::SerializeError`: the message could not be written out.
#[verifier::external_type_specification]
#[verifier::external_body]
pub struct ExSerializeError(protobuf::SerializeError);

/// The error value `protobuf::ParseError` (a unit struct); nothing is
/// claimed of it but its type.
#[verifier::external_body]
pub fn parse_error() -> protobuf::ParseError {
    protobuf::ParseError
}

/// The error value `protobuf::SerializeError` (a unit struct); nothing is
/// claimed of it but its type.
#[verifier::external_body]
pub fn serialize_error() -> protobuf::SerializeError {
    protobuf::SerializeError
}

/// Reads `bytes` as a protobuf string through `protobuf::ProtoStr` (its
/// `TryFrom<&[u8]>` impl, which defers to `std::str::from_utf8`). Claimed:
/// the result is present exactly when `bytes` is well-formed UTF-8, and then
/// it holds the characters that `bytes` encodes.
#[verifier::external_body]
pub fn proto_string(bytes: &[u8]) -> (r: Option<String>)
    ensures
        r is Some <==> valid_utf8(bytes@),
        r matches Some(text) ==> text@ == decode_utf8(bytes@),
{
    match <&protobuf::ProtoStr>::try_from(bytes) {
        Ok(text) => Some(text.to_cow_lossy().into_owned()),
        Err(_) => None,
    }
}

} // verus!
