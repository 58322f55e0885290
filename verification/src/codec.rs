//! Encoding and decoding of DHT record values: the room catalog as a CBOR
//! list of strings, and nickname records as raw UTF-8 bytes.

use vstd::prelude::*;

verus! {

/// The CBOR encoding of a list of room names, as `serde_cbor` produces it.
pub uninterp spec fn cbor_of(rooms: Seq<Seq<char>>) -> Seq<u8>;

/// What `serde_cbor` decodes a byte string to, when it parses as a list of
/// strings; `None` when it does not.
pub uninterp spec fn rooms_of_cbor(bytes: Seq<u8>) -> Option<Seq<Seq<char>>>;

/// The characters that lossy UTF-8 decoding yields for a byte string.
pub uninterp spec fn utf8_lossy_of(bytes: Seq<u8>) -> Seq<char>;

/// The characters that strict UTF-8 decoding yields for a byte string;
/// `None` when the bytes are not valid UTF-8.
pub uninterp spec fn utf8_of(bytes: Seq<u8>) -> Option<Seq<char>>;

/// Relies on `serde_cbor::to_vec`: the CBOR encoding of a list of strings
/// is a function of the list alone, and encoding a list of plain strings
/// into a byte vector always succeeds (the vector writer has no failure
/// path, and string and list serialization report no other error).
#[verifier::external_body]
fn cbor_encode_rooms(rooms: &Vec<String>) -> (r: Option<Vec<u8>>)
    ensures
        r is Some,
        r->0@ == cbor_of(rooms.deep_view()),
{
    match serde_cbor::to_vec(rooms) {
        Ok(bytes) => Some(bytes),
        Err(_) => None,
    }
}

/// Relies on `serde_cbor::from_slice`: whether a byte string parses as a
/// list of strings, and what it parses to, are functions of the bytes
/// alone.
#[verifier::external_body]
pub(crate) fn cbor_decode_rooms(bytes: &Vec<u8>) -> (r: Option<Vec<String>>)
    ensures
        match r {
            Some(v) => rooms_of_cbor(bytes@) == Some(v.deep_view()),
            None => rooms_of_cbor(bytes@) is None,
        },
{
    match serde_cbor::from_slice::<Vec<String>>(bytes.as_slice()) {
        Ok(rooms) => Some(rooms),
        Err(_) => None,
    }
}

/// Relies on `String::from_utf8_lossy`: the decoded text is a function of
/// the bytes alone; invalid sequences are replaced, never fatal.
#[verifier::external_body]
pub(crate) fn utf8_lossy(bytes: &Vec<u8>) -> (r: String)
    ensures
        r@ == utf8_lossy_of(bytes@),
{
    String::from_utf8_lossy(bytes.as_slice()).into_owned()
}

/// Relies on `String::from_utf8`: strict UTF-8 decoding succeeds exactly
/// on valid UTF-8, and the result is a function of the bytes alone.
#[verifier::external_body]
pub(crate) fn utf8_strict(bytes: Vec<u8>) -> (r: Option<String>)
    ensures
        match r {
            Some(s) => utf8_of(bytes@) == Some(s@),
            None => utf8_of(bytes@) is None,
        },
{
    match String::from_utf8(bytes) {
        Ok(s) => Some(s),
        Err(_) => None,
    }
}

/// The value persisted under the room-catalog DHT key: the catalog as
/// CBOR. Encoding a list of plain strings always succeeds.
pub fn rooms_record_value(rooms: &Vec<String>) -> (r: Option<Vec<u8>>)
    ensures
        r is Some,
        r->0@ == cbor_of(rooms.deep_view()),
{
    cbor_encode_rooms(rooms)
}

/// Parse a room-catalog record fetched from the DHT.
pub fn parse_rooms_record(bytes: &Vec<u8>) -> (r: Option<Vec<String>>)
    ensures
        match r {
            Some(v) => rooms_of_cbor(bytes@) == Some(v.deep_view()),
            None => rooms_of_cbor(bytes@) is None,
        },
{
    cbor_decode_rooms(bytes)
}

} // verus!
