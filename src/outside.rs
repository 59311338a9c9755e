//! The calls into outside code that the cipher relies on, with what is assumed of each.
use rand::Rng;
use vstd::prelude::*;
use crate::codec::{hex_ascii, hex_decoded, is_hex_digit};

verus! {

/// The CRC-32 checksum of a byte sequence.
pub uninterp spec fn crc32_of(data: Seq<u8>) -> u32;

/// Relies on crc32fast::hash: the checksum depends on the bytes alone.
#[verifier::external_body]
pub(crate) fn checksum(data: &[u8]) -> (r: u32)
    ensures
        r == crc32_of(data@),
{
    crc32fast::hash(data)
}

/// Relies on hex::encode: two lowercase hex digits for each byte, high nibble first.
#[verifier::external_body]
pub(crate) fn to_hex(data: &[u8]) -> (r: Vec<u8>)
    ensures
        r@ == hex_ascii(data@),
{
    hex::encode(data).into_bytes()
}

/// Relies on hex::decode: it fails on an odd length or a byte that is not a hex
/// digit of either case, and otherwise turns each pair of digits into one byte.
#[verifier::external_body]
pub(crate) fn from_hex(digits: &[u8]) -> (r: Result<Vec<u8>, hex::FromHexError>)
    ensures
        r is Ok <==> (digits@.len() % 2 == 0 && forall|i: int|
            0 <= i < digits@.len() ==> is_hex_digit(#[trigger] digits@[i])),
        r matches Ok(v) ==> v@ == hex_decoded(digits@),
{
    hex::decode(digits)
}

/// Relies on rand's thread-local generator for one byte; nothing is known of it.
#[verifier::external_body]
pub(crate) fn random_byte() -> (r: u8) {
    rand::thread_rng().gen()
}

/// Relies on String::from_utf8: it succeeds exactly on valid UTF-8 and then holds
/// the characters that the bytes encode.
#[verifier::external_body]
pub(crate) fn utf8_to_string(bytes: Vec<u8>) -> (r: Result<String, std::string::FromUtf8Error>)
    ensures
        r is Ok <==> vstd::utf8::valid_utf8(bytes@),
        r matches Ok(s) ==> s@ == vstd::utf8::decode_utf8(bytes@),
{
    String::from_utf8(bytes)
}

} // verus!
