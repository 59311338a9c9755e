//! The byte layout `encrypted payload ++ checksum ++ salt`.
use vstd::prelude::*;
use vstd::utf8::{decode_utf8, valid_utf8};
use crate::codec::{hex_ascii, spaced, spaces_from_hex};
use crate::error::{agrees, CipherError, ErrorKind};
use crate::keystream::{apply_key, mask};
use crate::outside::{crc32_of, to_hex, utf8_to_string};

verus! {

/// Length of the salt that decryption strips.
pub const SALT_LENGTH: usize = 8;

/// Length of the checksum.
pub const CHECKSUM_LENGTH: usize = 4;

/// A `u32` as four bytes, most significant first.
pub open spec fn be_bytes(x: u32) -> Seq<u8> {
    seq![
        (x / 0x100_0000) as u8,
        (x / 0x1_0000 % 256) as u8,
        (x / 0x100 % 256) as u8,
        (x % 256) as u8,
    ]
}

/// The `u32` that four bytes spell, most significant first.
pub open spec fn be_value(b: Seq<u8>) -> u32 {
    (b[0] as int * 0x100_0000 + b[1] as int * 0x1_0000 + b[2] as int * 0x100 + b[3] as int) as u32
}

/// The frame around an encrypted payload.
pub open spec fn framed(encrypted: Seq<u8>, checksum: u32, salt: Seq<u8>) -> Seq<u8> {
    encrypted + be_bytes(checksum) + salt
}

/// `data ++ salt` masked with the key, then framed with its checksum and the salt.
pub open spec fn sealed(data: Seq<u8>, key: Seq<u8>, salt: Seq<u8>) -> Seq<u8> {
    let e = mask(data + salt, key);
    framed(e, crc32_of(e), salt)
}

/// Opens a frame of more than twelve bytes, given the checksum of its payload.
pub open spec fn unsealed(bytes: Seq<u8>, key: Seq<u8>, payload_checksum: u32) -> Result<Seq<char>, ErrorKind> {
    let n = bytes.len() - 12;
    if payload_checksum != be_value(bytes.subrange(n, n + 4)) {
        Err(ErrorKind::IntegrityError)
    } else if key.len() == 0 {
        Err(ErrorKind::InvalidKey)
    } else if n < 8 {
        Err(ErrorKind::InvalidFormat)
    } else {
        let plain = mask(bytes.take(n), key).take(n - 8);
        if valid_utf8(plain) {
            Ok(decode_utf8(plain))
        } else {
            Err(ErrorKind::Utf8Error)
        }
    }
}

/// Opens a frame: its length, its checksum, then the text under the key.
pub open spec fn opened(bytes: Seq<u8>, key: Seq<u8>) -> Result<Seq<char>, ErrorKind> {
    if bytes.len() <= 12 {
        Err(ErrorKind::InvalidFormat)
    } else {
        unsealed(bytes, key, crc32_of(bytes.take(bytes.len() - 12)))
    }
}

/// Four bytes back to the `u32` they came from.
pub proof fn lemma_be_round_trip(x: u32)
    ensures
        be_value(be_bytes(x)) == x,
{
    assert((x / 0x100_0000) * 0x100_0000 + (x / 0x1_0000 % 256) * 0x1_0000 + (x / 0x100 % 256) * 0x100
        + x % 256 == x) by (bit_vector);
    assert(x / 0x100_0000 < 256) by (bit_vector);
}

/// The whitespace spelling of a framed payload.
pub fn encode_frame(encrypted: &[u8], checksum: u32, salt: &[u8]) -> (r: String)
    ensures
        r@ == spaced(hex_ascii(framed(encrypted@, checksum, salt@))),
{
    let mut bytes: Vec<u8> = Vec::new();
    for i in 0..encrypted.len()
        invariant
            bytes@ == encrypted@.take(i as int),
    {
        bytes.push(encrypted[i]);
    }
    bytes.push((checksum / 0x100_0000) as u8);
    bytes.push((checksum / 0x1_0000 % 256) as u8);
    bytes.push((checksum / 0x100 % 256) as u8);
    bytes.push((checksum % 256) as u8);
    let ghost head = bytes@;
    for i in 0..salt.len()
        invariant
            bytes@ == head + salt@.take(i as int),
    {
        bytes.push(salt[i]);
    }
    assert(bytes@ =~= framed(encrypted@, checksum, salt@));
    let digits = to_hex(bytes.as_slice());
    proof {
        assert forall|i: int| 0 <= i < digits@.len() implies crate::codec::is_hex_digit(
            #[trigger] digits@[i],
        ) by {
            let b = bytes@[i / 2] as int;
            assert(b / 16 < 16 && b % 16 < 16);
        }
    }
    spaces_from_hex(digits.as_slice())
}

/// Opens a frame of more than twelve bytes, given the checksum of its payload:
/// the checksum must match the stored one, the key must not be empty, the
/// payload must hold the salt, and what is left under the key must be UTF-8.
pub fn open_frame(bytes: &[u8], key: &[u8], payload_checksum: u32) -> (r: Result<String, CipherError>)
    requires
        bytes@.len() > 12,
    ensures
        agrees(r, unsealed(bytes@, key@, payload_checksum)),
{
    let salt_pos = bytes.len() - SALT_LENGTH;
    let checksum_pos = salt_pos - CHECKSUM_LENGTH;
    let stored: u32 = bytes[checksum_pos] as u32 * 0x100_0000 + bytes[checksum_pos + 1] as u32 * 0x1_0000
        + bytes[checksum_pos + 2] as u32 * 0x100 + bytes[checksum_pos + 3] as u32;
    assert(stored == be_value(bytes@.subrange(checksum_pos as int, checksum_pos + 4)));
    if payload_checksum != stored {
        return Err(CipherError::IntegrityError);
    }
    if key.len() == 0 {
        return Err(CipherError::InvalidKey);
    }
    if checksum_pos < SALT_LENGTH {
        return Err(CipherError::InvalidFormat("Invalid ciphertext length".to_owned()));
    }
    let payload = slice_prefix(bytes, checksum_pos);
    let decrypted = apply_key(payload.as_slice(), key);
    let text_len = checksum_pos - SALT_LENGTH;
    let text_bytes = slice_prefix(decrypted.as_slice(), text_len);
    match utf8_to_string(text_bytes) {
        Ok(s) => Ok(s),
        Err(e) => Err(CipherError::Utf8Error(e)),
    }
}

/// The first `n` bytes of `b`.
pub(crate) fn slice_prefix(b: &[u8], n: usize) -> (r: Vec<u8>)
    requires
        n <= b@.len(),
    ensures
        r@ == b@.take(n as int),
{
    let mut out: Vec<u8> = Vec::with_capacity(n);
    for i in 0..n
        invariant
            n <= b@.len(),
            out@ == b@.take(i as int),
    {
        out.push(b[i]);
    }
    out
}

} // verus!
