use whitespace_cipher::cipher::{decrypt, encrypt, encrypt_with_salt};
use whitespace_cipher::codec::{bits_of, clean_ciphertext, hex_from_bits, spaces_from_hex};
use whitespace_cipher::error::{CipherError, ErrorKind};
use whitespace_cipher::frame::{encode_frame, open_frame};
use whitespace_cipher::keystream::{apply_key, extend_key};

fn spell_hex(hex: &str) -> String {
    let mut out = String::new();
    for c in hex.chars() {
        let v = c.to_digit(16).unwrap();
        for i in 0..4 {
            out.push(if (v >> (3 - i)) & 1 == 1 { '\t' } else { ' ' });
        }
    }
    out
}

fn kind_of(r: &Result<String, CipherError>) -> Option<ErrorKind> {
    match r {
        Ok(_) => None,
        Err(e) => Some(e.kind()),
    }
}

#[test]
fn concrete_scenario_single_letter() {
    // The salt is masked along with the text: 0x41 ^ 0x6b, then eight times 0x00 ^ 0x6b.
    let encrypted = [0x2a, 0x6b, 0x6b, 0x6b, 0x6b, 0x6b, 0x6b, 0x6b, 0x6b];
    assert_eq!(crc32fast::hash(&encrypted), 0x8dfb_5fdb);
    let c = encrypt("A", b"k", Some(vec![0u8; 8])).unwrap();
    assert_eq!(c, spell_hex("2a6b6b6b6b6b6b6b6b8dfb5fdb0000000000000000"));
    assert_eq!(c.len(), 8 * 21);
    assert_eq!(decrypt(&c, b"k").unwrap(), "A");
}

#[test]
fn round_trip_various_texts() {
    let salt = b"saltsalt".to_vec();
    for (text, key) in [
        ("", &b"k"[..]),
        ("hello world", &b"secret"[..]),
        ("a longer text than the key, with punctuation!", &b"xy"[..]),
        ("caf\u{e9} \u{1f600} \u{4e2d}\u{6587}", &[0u8, 255, 7][..]),
        ("tabs\tand\nnewlines", &b"a very long key that exceeds the text"[..]),
    ] {
        let c = encrypt(text, key, Some(salt.clone())).unwrap();
        assert!(c.chars().all(|ch| ch == ' ' || ch == '\t'));
        assert_eq!(decrypt(&c, key).unwrap(), text);
    }
}

#[test]
fn round_trip_with_random_salt() {
    let c = encrypt("random salt", b"key", None).unwrap();
    assert_eq!(c.len(), 8 * (11 + 8 + 4 + 8));
    assert_eq!(decrypt(&c, b"key").unwrap(), "random salt");
}

#[test]
fn round_trip_survives_surrounding_text() {
    let c = encrypt("hidden", b"k3y", Some(vec![1, 2, 3, 4, 5, 6, 7, 8])).unwrap();
    let mut wrapped = String::from("Dear_reader,\n");
    for (i, ch) in c.chars().enumerate() {
        if i % 16 == 0 {
            wrapped.push_str("word\n");
        }
        wrapped.push(ch);
    }
    wrapped.push_str("\nregards.");
    assert_eq!(decrypt(&wrapped, b"k3y").unwrap(), "hidden");
}

#[test]
fn tamper_in_payload_is_detected() {
    let c = encrypt("integrity matters", b"key", Some(vec![9u8; 8])).unwrap();
    let chars: Vec<char> = c.chars().collect();
    let payload_chars = 8 * ("integrity matters".len() + 8);
    for pos in [0, 1, 7, 8, 63, payload_chars - 1] {
        let mut t = chars.clone();
        t[pos] = if t[pos] == ' ' { '\t' } else { ' ' };
        let tampered: String = t.into_iter().collect();
        assert_eq!(kind_of(&decrypt(&tampered, b"key")), Some(ErrorKind::IntegrityError));
    }
}

#[test]
fn bit_count_not_multiple_of_four_is_malformed() {
    for s in [" ", "\t\t", "   ", "     ", "x \t y \t \t"] {
        assert_eq!(kind_of(&decrypt(s, b"k")), Some(ErrorKind::InvalidFormat));
    }
}

#[test]
fn empty_ciphertext_is_empty_file() {
    assert!(matches!(decrypt("", b"k"), Err(CipherError::EmptyFile)));
    assert!(matches!(decrypt("", b""), Err(CipherError::EmptyFile)));
}

#[test]
fn empty_key_is_refused_for_encryption() {
    assert!(matches!(encrypt("text", b"", None), Err(CipherError::InvalidKey)));
    assert!(matches!(encrypt("text", b"", Some(vec![0u8; 8])), Err(CipherError::InvalidKey)));
    assert!(matches!(encrypt_with_salt("", b"", b"salt"), Err(CipherError::InvalidKey)));
}

#[test]
fn empty_key_is_refused_for_decryption_of_sound_ciphertext() {
    let c = encrypt("abc", b"k", Some(vec![0u8; 8])).unwrap();
    assert!(matches!(decrypt(&c, b""), Err(CipherError::InvalidKey)));
}

#[test]
fn explicit_salt_is_deterministic() {
    let a = encrypt("same", b"key", Some(b"12345678".to_vec())).unwrap();
    let b = encrypt("same", b"key", Some(b"12345678".to_vec())).unwrap();
    assert_eq!(a, b);
    let c = encrypt("same", b"key", Some(b"12345679".to_vec())).unwrap();
    assert_ne!(a, c);
}

#[test]
fn random_salt_varies() {
    let a = encrypt("same", b"key", None).unwrap();
    let b = encrypt("same", b"key", None).unwrap();
    assert_ne!(a, b);
}

#[test]
fn no_whitespace_is_malformed() {
    assert!(matches!(decrypt("abc\n", b"k"), Err(CipherError::InvalidFormat(_))));
}

#[test]
fn odd_number_of_hex_digits_is_hex_error() {
    assert!(matches!(decrypt("    ", b"k"), Err(CipherError::HexError(hex::FromHexError::OddLength))));
    assert_eq!(kind_of(&decrypt(&spell_hex("abc"), b"k")), Some(ErrorKind::HexError));
}

#[test]
fn twelve_bytes_or_fewer_is_malformed() {
    let twelve = spell_hex("000000000000000000000000");
    assert!(matches!(decrypt(&twelve, b"k"), Err(CipherError::InvalidFormat(_))));
    let short = encrypt_with_salt("", b"k", b"ab").unwrap();
    assert_eq!(kind_of(&decrypt(&short, b"k")), Some(ErrorKind::InvalidFormat));
}

#[test]
fn wrong_key_can_give_invalid_utf8() {
    let c = encrypt("A", &[0x01], Some(vec![0u8; 8])).unwrap();
    assert!(matches!(decrypt(&c, &[0xc0]), Err(CipherError::Utf8Error(_))));
}

#[test]
fn open_frame_checks_in_order() {
    let bytes: Vec<u8> = vec![0xaa, 0x01, 0x02, 0x03, 0x04, 0, 0, 0, 0, 0, 0, 0, 0];
    assert_eq!(kind_of(&open_frame(&bytes, b"k", 0x0102_0305)), Some(ErrorKind::IntegrityError));
    assert_eq!(kind_of(&open_frame(&bytes, b"", 0x0102_0304)), Some(ErrorKind::InvalidKey));
    assert_eq!(kind_of(&open_frame(&bytes, b"k", 0x0102_0304)), Some(ErrorKind::InvalidFormat));
}

#[test]
fn open_frame_returns_text() {
    // payload "hi" ++ 8 salt bytes, masked with key 0x01
    let mut bytes: Vec<u8> = vec![b'h' ^ 1, b'i' ^ 1, 1, 1, 1, 1, 1, 1, 1, 1];
    bytes.extend_from_slice(&[0xde, 0xad, 0xbe, 0xef]);
    bytes.extend_from_slice(&[0u8; 8]);
    assert_eq!(open_frame(&bytes, &[1], 0xdead_beef).unwrap(), "hi");
}

#[test]
fn encode_frame_spells_layout() {
    let s = encode_frame(&[0x2a], 0x09b9_265b, &[0u8; 8]);
    assert_eq!(s, spell_hex("2a09b9265b0000000000000000"));
    let t = encode_frame(&[0xff, 0x10], 0x0000_0001, &[0x7f]);
    assert_eq!(t, spell_hex("ff10000000017f"));
}

#[test]
fn extend_key_repeats_cyclically() {
    assert_eq!(extend_key(&[1, 2, 3], 7), vec![1, 2, 3, 1, 2, 3, 1]);
    assert_eq!(extend_key(&[1, 2, 3], 2), vec![1, 2]);
    assert_eq!(extend_key(&[9], 0), Vec::<u8>::new());
}

#[test]
fn apply_key_xors_with_stream() {
    assert_eq!(apply_key(&[0x41], b"k"), vec![0x2a]);
    assert_eq!(apply_key(&[0x00, 0xff, 0x0f], &[0x0f, 0xf0]), vec![0x0f, 0x0f, 0x00]);
    assert_eq!(apply_key(&apply_key(b"twice", b"ab"), b"ab"), b"twice".to_vec());
}

#[test]
fn clean_ciphertext_keeps_spaces_and_tabs() {
    assert_eq!(clean_ciphertext("a \tb\n c\r\t"), " \t \t");
    assert_eq!(clean_ciphertext("none"), "");
    assert_eq!(clean_ciphertext("\u{e9} \u{1f600}\t"), " \t");
}

#[test]
fn bits_of_maps_and_refuses() {
    assert_eq!(bits_of(" \t\t ").unwrap(), vec![0, 1, 1, 0]);
    assert!(matches!(bits_of(" x"), Err(CipherError::InvalidCharacters(_))));
}

#[test]
fn hex_from_bits_reads_nibbles() {
    assert_eq!(hex_from_bits(&[1, 0, 1, 0, 0, 0, 0, 1, 1, 1, 1, 1]), b"a1f".to_vec());
    assert_eq!(hex_from_bits(&[]), Vec::<u8>::new());
}

#[test]
fn spaces_from_hex_spells_digits() {
    assert_eq!(spaces_from_hex(b"0f"), "    \t\t\t\t");
    assert_eq!(spaces_from_hex(b"5A"), " \t \t\t \t ");
}

#[test]
fn error_kind_matches_variant() {
    assert_eq!(CipherError::IntegrityError.kind(), ErrorKind::IntegrityError);
    assert_eq!(CipherError::InvalidFormat(String::from("x")).kind(), ErrorKind::InvalidFormat);
    assert_eq!(CipherError::IoError(String::from("x")).kind(), ErrorKind::IoError);
}

#[test]
fn long_salt_is_cut_to_eight_bytes() {
    let long = encrypt("cut", b"key", Some(b"123456789abc".to_vec())).unwrap();
    let eight = encrypt("cut", b"key", Some(b"12345678".to_vec())).unwrap();
    assert_eq!(long, eight);
    assert_eq!(long.len(), 8 * (3 + 8 + 4 + 8));
    assert_eq!(decrypt(&long, b"key").unwrap(), "cut");
    let direct = encrypt_with_salt("cut", b"key", b"123456789").unwrap();
    assert_eq!(direct, eight);
}
