//! Encryption to whitespace and decryption from it.
use vstd::prelude::*;
use vstd::utf8::encode_utf8;
use crate::codec::{
    bit_value, bits_of, clean_ciphertext, digits_of_bits, hex_ascii, hex_decoded, hex_from_bits,
    is_hex_digit, keep_ws, lemma_keep_ws_only_ws, spaced,
};
use crate::error::{agrees, CipherError, ErrorKind};
use crate::frame::{encode_frame, open_frame, opened, sealed, slice_prefix, SALT_LENGTH};
use crate::keystream::apply_key;
use crate::outside::{checksum, from_hex, random_byte};

verus! {

/// The salt that encryption uses: a given salt cut to its first eight bytes.
pub open spec fn used_salt(salt: Seq<u8>) -> Seq<u8> {
    if salt.len() > 8 {
        salt.take(8)
    } else {
        salt
    }
}

/// What encrypting `text` under `key` with `salt` gives.
pub open spec fn encrypt_spec(text: Seq<char>, key: Seq<u8>, salt: Seq<u8>) -> Result<Seq<char>, ErrorKind> {
    if key.len() == 0 {
        Err(ErrorKind::InvalidKey)
    } else {
        Ok(spaced(hex_ascii(sealed(encode_utf8(text), key, used_salt(salt)))))
    }
}

/// What decrypting `ciphertext` under `key` gives.
pub open spec fn decrypt_spec(ciphertext: Seq<char>, key: Seq<u8>) -> Result<Seq<char>, ErrorKind> {
    let w = keep_ws(ciphertext);
    if ciphertext.len() == 0 {
        Err(ErrorKind::EmptyFile)
    } else if w.len() == 0 {
        Err(ErrorKind::InvalidFormat)
    } else if w.len() % 4 != 0 {
        Err(ErrorKind::InvalidFormat)
    } else if (w.len() / 4) % 2 != 0 {
        Err(ErrorKind::HexError)
    } else {
        opened(hex_decoded(digits_of_bits(w.map_values(|c: char| bit_value(c)))), key)
    }
}

/// Encrypts `text` under `key` with the given salt, of which at most the first
/// eight bytes are used.
pub fn encrypt_with_salt(text: &str, key: &[u8], salt: &[u8]) -> (r: Result<String, CipherError>)
    ensures
        agrees(r, encrypt_spec(text@, key@, salt@)),
{
    if key.len() == 0 {
        return Err(CipherError::InvalidKey);
    }
    let salt_len = if salt.len() > SALT_LENGTH { SALT_LENGTH } else { salt.len() };
    let used = slice_prefix(salt, salt_len);
    assert(used@ =~= used_salt(salt@));
    let text_bytes = text.as_bytes();
    let mut data: Vec<u8> = Vec::new();
    for i in 0..text_bytes.len()
        invariant
            data@ == text_bytes@.take(i as int),
    {
        data.push(text_bytes[i]);
    }
    for i in 0..used.len()
        invariant
            data@ == text_bytes@ + used@.take(i as int),
    {
        data.push(used[i]);
        assert(data@ =~= text_bytes@ + used@.take(i + 1));
    }
    assert(data@ =~= encode_utf8(text@) + used@);
    let encrypted = apply_key(data.as_slice(), key);
    let sum = checksum(encrypted.as_slice());
    Ok(encode_frame(encrypted.as_slice(), sum, used.as_slice()))
}

/// Encrypts `text` under `key`, with the given salt or else eight random bytes.
pub fn encrypt(text: &str, key: &[u8], salt: Option<Vec<u8>>) -> (r: Result<String, CipherError>)
    ensures
        salt matches Some(s) ==> agrees(r, encrypt_spec(text@, key@, s@)),
        salt is None ==> exists|s: Seq<u8>|
            #![trigger encrypt_spec(text@, key@, s)]
            s.len() == 8 && agrees(r, encrypt_spec(text@, key@, s)),
        key@.len() == 0 ==> (r matches Err(e) && e.kind() == ErrorKind::InvalidKey),
{
    if key.len() == 0 {
        let r = Err(CipherError::InvalidKey);
        assert(agrees(r, encrypt_spec(text@, key@, Seq::new(8, |i: int| 0u8))));
        return r;
    }
    match salt {
        Some(s) => encrypt_with_salt(text, key, s.as_slice()),
        None => {
            let mut fresh: Vec<u8> = Vec::with_capacity(SALT_LENGTH);
            for i in 0..SALT_LENGTH
                invariant
                    fresh@.len() == i,
            {
                fresh.push(random_byte());
            }
            let r = encrypt_with_salt(text, key, fresh.as_slice());
            assert(agrees(r, encrypt_spec(text@, key@, fresh@)));
            r
        }
    }
}

/// Decrypts whitespace `ciphertext` under `key`; characters other than spaces
/// and tabs are ignored.
pub fn decrypt(ciphertext: &str, key: &[u8]) -> (r: Result<String, CipherError>)
    ensures
        agrees(r, decrypt_spec(ciphertext@, key@)),
{
    if ciphertext.is_empty() {
        return Err(CipherError::EmptyFile);
    }
    let cleaned = clean_ciphertext(ciphertext);
    if cleaned.as_str().is_empty() {
        return Err(CipherError::InvalidFormat("Ciphertext contains no spaces or tabs".to_owned()));
    }
    proof {
        lemma_keep_ws_only_ws(ciphertext@);
    }
    let bits = match bits_of(cleaned.as_str()) {
        Ok(b) => b,
        Err(e) => return Err(e),
    };
    if bits.len() % 4 != 0 {
        return Err(CipherError::InvalidFormat("Number of bits is not a multiple of 4".to_owned()));
    }
    let digits = hex_from_bits(bits.as_slice());
    proof {
        assert forall|i: int| 0 <= i < digits@.len() implies is_hex_digit(#[trigger] digits@[i]) by {
            assert(bits@[4 * i] <= 1 && bits@[4 * i + 1] <= 1 && bits@[4 * i + 2] <= 1 && bits@[4 * i + 3] <= 1);
        }
    }
    let bytes = match from_hex(digits.as_slice()) {
        Ok(b) => b,
        Err(e) => return Err(CipherError::HexError(e)),
    };
    if bytes.len() <= 12 {
        return Err(CipherError::InvalidFormat("Invalid ciphertext length".to_owned()));
    }
    let payload = slice_prefix(bytes.as_slice(), bytes.len() - 12);
    let sum = checksum(payload.as_slice());
    open_frame(bytes.as_slice(), key, sum)
}

} // verus!
