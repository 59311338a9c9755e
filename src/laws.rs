//! Properties of encryption and decryption taken together.
use vstd::prelude::*;
use vstd::utf8::{encode_utf8, encode_utf8_decode_utf8, encode_utf8_valid_utf8};
use crate::cipher::{decrypt_spec, encrypt_spec, used_salt};
use crate::codec::{
    bit_char, bit_value, digit_value, digits_of_bits, hex_ascii, hex_decoded, hex_digit, is_ws,
    keep_ws, lemma_keep_ws_of_ws, nibble_bit, spaced,
};
use crate::error::{agrees, CipherError, ErrorKind};
use crate::frame::{be_bytes, lemma_be_round_trip, opened, sealed};
use crate::keystream::{lemma_mask_involutive, mask};
use crate::outside::crc32_of;

verus! {

/// A hex digit's value read back from the digit.
proof fn lemma_digit_round_trip(v: int)
    requires
        0 <= v < 16,
    ensures
        digit_value(hex_digit(v)) == v,
        8 * (v / 8 % 2) + 4 * (v / 4 % 2) + 2 * (v / 2 % 2) + v % 2 == v,
{
    assert(v == 0 || v == 1 || v == 2 || v == 3 || v == 4 || v == 5 || v == 6 || v == 7 || v == 8
        || v == 9 || v == 10 || v == 11 || v == 12 || v == 13 || v == 14 || v == 15);
}

/// Four whitespace characters of `spaced(h)` read back as the value of digit `i`.
proof fn lemma_nibble_read_back(h: Seq<u8>, i: int)
    requires
        0 <= i < h.len(),
        0 <= digit_value(h[i]) < 16,
    ensures
        8 * bit_value(spaced(h)[4 * i]) + 4 * bit_value(spaced(h)[4 * i + 1]) + 2 * bit_value(
            spaced(h)[4 * i + 2],
        ) + bit_value(spaced(h)[4 * i + 3]) == digit_value(h[i]),
{
    let v = digit_value(h[i]);
    assert((4 * i) / 4 == i && (4 * i) % 4 == 0);
    assert((4 * i + 1) / 4 == i && (4 * i + 1) % 4 == 1);
    assert((4 * i + 2) / 4 == i && (4 * i + 2) % 4 == 2);
    assert((4 * i + 3) / 4 == i && (4 * i + 3) % 4 == 3);
    lemma_digit_round_trip(v);
}

/// Lowercase hex digits spelled as whitespace and read back as bits give the digits.
proof fn lemma_digits_read_back(b: Seq<u8>)
    ensures
        digits_of_bits(spaced(hex_ascii(b)).map_values(|c: char| bit_value(c))) == hex_ascii(b),
{
    let h = hex_ascii(b);
    let c = spaced(h);
    let bits = c.map_values(|ch: char| bit_value(ch));
    assert forall|i: int| 0 <= i < h.len() implies #[trigger] digits_of_bits(bits)[i] == h[i] by {
        let x = b[i / 2] as int;
        let v = if i % 2 == 0 {
            x / 16
        } else {
            x % 16
        };
        assert(h[i] == hex_digit(v));
        lemma_digit_round_trip(v);
        lemma_nibble_read_back(h, i);
        assert(4 * i + 3 < c.len());
    }
    assert(digits_of_bits(bits) =~= h);
}

/// The hex of `b` decodes to `b`.
proof fn lemma_hex_read_back(b: Seq<u8>)
    ensures
        hex_decoded(hex_ascii(b)) == b,
{
    let h = hex_ascii(b);
    assert forall|i: int| 0 <= i < b.len() implies #[trigger] hex_decoded(h)[i] == b[i] by {
        let x = b[i] as int;
        assert((2 * i) / 2 == i && (2 * i) % 2 == 0);
        assert((2 * i + 1) / 2 == i && (2 * i + 1) % 2 == 1);
        assert(h[2 * i] == hex_digit(x / 16));
        assert(h[2 * i + 1] == hex_digit(x % 16));
        lemma_digit_round_trip(x / 16);
        lemma_digit_round_trip(x % 16);
    }
    assert(hex_decoded(h) =~= b);
}

/// The whitespace spelling of the hex of `b`, read back, gives `b`.
pub proof fn lemma_codec_round_trip(b: Seq<u8>)
    ensures
        keep_ws(spaced(hex_ascii(b))) == spaced(hex_ascii(b)),
        spaced(hex_ascii(b)).len() == 8 * b.len(),
        hex_decoded(digits_of_bits(spaced(hex_ascii(b)).map_values(|c: char| bit_value(c)))) == b,
{
    let c = spaced(hex_ascii(b));
    assert forall|i: int| 0 <= i < c.len() implies is_ws(#[trigger] c[i]) by {}
    lemma_keep_ws_of_ws(c);
    lemma_digits_read_back(b);
    lemma_hex_read_back(b);
}

/// A sealed frame opens, under the same key, to the data it was sealed from.
proof fn lemma_open_sealed(text: Seq<char>, key: Seq<u8>, salt: Seq<u8>)
    requires
        key.len() > 0,
        salt.len() == 8,
    ensures
        opened(sealed(encode_utf8(text), key, salt), key) == Ok::<Seq<char>, ErrorKind>(text),
{
    let data = encode_utf8(text);
    let e = mask(data + salt, key);
    let b = sealed(data, key, salt);
    let n = b.len() - 12;
    assert(n == e.len());
    assert(b.take(n) =~= e);
    assert(b.subrange(n, n + 4) =~= be_bytes(crc32_of(e)));
    lemma_be_round_trip(crc32_of(e));
    lemma_mask_involutive(data + salt, key);
    assert(mask(b.take(n), key).take(n - 8) =~= data);
    encode_utf8_valid_utf8(text);
    encode_utf8_decode_utf8(text);
}

/// Decrypting what was encrypted under a non-empty key with a salt of at least
/// eight bytes gives the text back.
pub proof fn lemma_round_trip(text: Seq<char>, key: Seq<u8>, salt: Seq<u8>)
    requires
        key.len() > 0,
        salt.len() >= 8,
    ensures
        encrypt_spec(text, key, salt) matches Ok(c) && decrypt_spec(c, key) == Ok::<Seq<char>, ErrorKind>(text),
{
    let b = sealed(encode_utf8(text), key, used_salt(salt));
    lemma_codec_round_trip(b);
    lemma_open_sealed(text, key, used_salt(salt));
    assert(b.len() >= 20);
}

/// A ciphertext whose spaces and tabs are not a whole number of hex digits is
/// refused as malformed.
pub proof fn lemma_bad_bit_count(ciphertext: Seq<char>, key: Seq<u8>)
    requires
        keep_ws(ciphertext).len() % 4 != 0,
    ensures
        decrypt_spec(ciphertext, key) == Err::<Seq<char>, ErrorKind>(ErrorKind::InvalidFormat),
{
}

/// An empty ciphertext is refused as an empty file, and an empty key is refused
/// for encryption.
pub proof fn lemma_empty_inputs(text: Seq<char>, key: Seq<u8>, salt: Seq<u8>)
    ensures
        decrypt_spec(Seq::empty(), key) == Err::<Seq<char>, ErrorKind>(ErrorKind::EmptyFile),
        encrypt_spec(text, Seq::empty(), salt) == Err::<Seq<char>, ErrorKind>(ErrorKind::InvalidKey),
{
}

/// Two encryptions of the same text under the same key and salt give the same
/// outcome.
pub proof fn lemma_salted_encryption_deterministic(
    text: Seq<char>,
    key: Seq<u8>,
    salt: Seq<u8>,
    r1: Result<String, CipherError>,
    r2: Result<String, CipherError>,
)
    requires
        agrees(r1, encrypt_spec(text, key, salt)),
        agrees(r2, encrypt_spec(text, key, salt)),
    ensures
        r1 is Ok <==> r2 is Ok,
        r1 matches Ok(a) ==> r2 matches Ok(b) && a@ == b@,
        r1 matches Err(a) ==> r2 matches Err(b) && a.spec_kind() == b.spec_kind(),
{
}

/// Bit `q` of `x`, counting from the most significant (`q == 0`).
pub open spec fn bit_of(x: u8, q: int) -> bool {
    (x >> ((7 - q) as u8)) & 1u8 == 1u8
}

/// The other whitespace character.
pub open spec fn flip(c: char) -> char {
    if c == '\t' {
        ' '
    } else {
        '\t'
    }
}

/// `e` with bit `j % 8` (most significant first) of byte `j / 8` inverted.
pub open spec fn flip_bit(e: Seq<u8>, j: int) -> Seq<u8> {
    e.update(j / 8, e[j / 8] ^ (0x80u8 >> ((j % 8) as u8)))
}

/// Bit `q` of a byte, read through its hex digit and that digit's spelling.
proof fn lemma_bit_through_digit(x: u8, q: int)
    requires
        0 <= q < 8,
    ensures
        nibble_bit(
            digit_value(hex_digit(if q < 4 { x as int / 16 } else { x as int % 16 })),
            q % 4,
        ) == bit_of(x, q),
{
    let v = if q < 4 { x as int / 16 } else { x as int % 16 };
    lemma_digit_round_trip(v);
    if q == 0 {
        assert(((x / 16) / 8) % 2 == 1 <==> (x >> 7u8) & 1u8 == 1u8) by (bit_vector);
    } else if q == 1 {
        assert(((x / 16) / 4) % 2 == 1 <==> (x >> 6u8) & 1u8 == 1u8) by (bit_vector);
    } else if q == 2 {
        assert(((x / 16) / 2) % 2 == 1 <==> (x >> 5u8) & 1u8 == 1u8) by (bit_vector);
    } else if q == 3 {
        assert((x / 16) % 2 == 1 <==> (x >> 4u8) & 1u8 == 1u8) by (bit_vector);
    } else if q == 4 {
        assert(((x % 16) / 8) % 2 == 1 <==> (x >> 3u8) & 1u8 == 1u8) by (bit_vector);
    } else if q == 5 {
        assert(((x % 16) / 4) % 2 == 1 <==> (x >> 2u8) & 1u8 == 1u8) by (bit_vector);
    } else if q == 6 {
        assert(((x % 16) / 2) % 2 == 1 <==> (x >> 1u8) & 1u8 == 1u8) by (bit_vector);
    } else {
        assert((x % 16) % 2 == 1 <==> (x >> 0u8) & 1u8 == 1u8) by (bit_vector);
    }
}

/// Inverting bit `k` of a byte changes bit `k` and no other.
proof fn lemma_flip_one_bit(x: u8, k: u8, q: u8)
    requires
        k < 8,
        q < 8,
    ensures
        bit_of(x ^ (0x80u8 >> k), q as int) == (bit_of(x, q as int) != (q == k)),
{
    assert(((x ^ (0x80u8 >> k)) >> ((7 - q) as u8)) & 1u8 == 1u8 <==> (((x >> ((7 - q) as u8)) & 1u8
        == 1u8) != (q == k))) by (bit_vector)
        requires
            k < 8,
            q < 8,
    ;
}

/// Character `m` of the whitespace spelling of the hex of `b` is bit `m % 8` of byte `m / 8`.
proof fn lemma_spelled_bit(b: Seq<u8>, m: int)
    requires
        0 <= m < 8 * b.len(),
    ensures
        spaced(hex_ascii(b))[m] == bit_char(bit_of(b[m / 8], m % 8)),
{
    let h = hex_ascii(b);
    let i = m / 4;
    assert(i / 2 == m / 8);
    assert(i % 2 == 0 <==> m % 8 < 4);
    assert(m % 4 == (m % 8) % 4);
    assert(0 <= i < h.len());
    lemma_bit_through_digit(b[m / 8], m % 8);
}

/// Inverting whitespace character `j` of the spelling of `b` spells `b` with
/// bit `j % 8` of byte `j / 8` inverted.
proof fn lemma_flip_spelling(b: Seq<u8>, j: int)
    requires
        0 <= j < 8 * b.len(),
    ensures
        spaced(hex_ascii(flip_bit(b, j))) == spaced(hex_ascii(b)).update(
            j,
            flip(spaced(hex_ascii(b))[j]),
        ),
{
    let c = spaced(hex_ascii(b));
    let p = j / 8;
    let k = j % 8;
    let b2 = flip_bit(b, j);
    let c2 = spaced(hex_ascii(b2));
    assert forall|m: int| 0 <= m < c.len() implies #[trigger] c2[m] == c.update(j, flip(c[j]))[m] by {
        lemma_spelled_bit(b, m);
        lemma_spelled_bit(b2, m);
        if m / 8 == p {
            lemma_flip_one_bit(b[p], k as u8, (m % 8) as u8);
            assert(m % 8 == k <==> m == j);
            lemma_spelled_bit(b, j);
        }
    }
    assert(c2 =~= c.update(j, flip(c[j])));
}

/// A sealed frame with one payload bit inverted fails its checksum, provided
/// that the checksum of the altered payload differs.
proof fn lemma_open_flipped(data: Seq<u8>, key: Seq<u8>, salt: Seq<u8>, j: int)
    requires
        salt.len() == 8,
        0 <= j < 8 * (data.len() + 8),
        crc32_of(flip_bit(mask(data + salt, key), j)) != crc32_of(mask(data + salt, key)),
    ensures
        opened(flip_bit(sealed(data, key, salt), j), key) == Err::<Seq<char>, ErrorKind>(
            ErrorKind::IntegrityError,
        ),
{
    let e = mask(data + salt, key);
    let b = sealed(data, key, salt);
    let b2 = flip_bit(b, j);
    let n = b.len() - 12;
    assert(b2.take(n) =~= flip_bit(e, j));
    assert(b2.subrange(n, n + 4) =~= be_bytes(crc32_of(e)));
    lemma_be_round_trip(crc32_of(e));
}

/// Inverting one whitespace character of the payload region of a ciphertext
/// made with a salt of at least eight bytes is refused as an integrity failure,
/// provided that the checksum of the payload with that bit inverted differs
/// from the checksum of the payload.
pub proof fn lemma_tamper_detected(text: Seq<char>, key: Seq<u8>, salt: Seq<u8>, j: int)
    requires
        key.len() > 0,
        salt.len() >= 8,
        0 <= j < 8 * (encode_utf8(text).len() + 8),
        crc32_of(flip_bit(mask(encode_utf8(text) + used_salt(salt), key), j)) != crc32_of(
            mask(encode_utf8(text) + used_salt(salt), key),
        ),
    ensures
        encrypt_spec(text, key, salt) matches Ok(c) && decrypt_spec(c.update(j, flip(c[j])), key)
            == Err::<Seq<char>, ErrorKind>(ErrorKind::IntegrityError),
{
    let b = sealed(encode_utf8(text), key, used_salt(salt));
    let c = spaced(hex_ascii(b));
    lemma_flip_spelling(b, j);
    lemma_codec_round_trip(flip_bit(b, j));
    lemma_open_flipped(encode_utf8(text), key, used_salt(salt), j);
    assert(flip_bit(b, j).len() == b.len());
    assert(c.update(j, flip(c[j])).len() > 0);
}

} // verus!
